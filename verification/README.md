# exchange

A spot exchange: a price-time priority matching engine with one order book
per market, the HTTP front that queues client requests for it, the archiver
that keeps users, orders and trades, and the websocket server that streams
market data. The logic is verified with Verus.

## Layout

- `src/` — the verified library.
  - `decimal.rs` — amounts as `rust_decimal` numbers held as plain values;
    every computation on them goes through `rust_decimal`.
  - `clock.rs`, `text.rs` — the system clock, and splitting and comparing text.
  - `engine/matching/` — markets and symbols (`mod.rs`), price levels
    (`limit.rs`), the order book (`orderbook.rs`: adding, cancelling,
    matching market and limit orders, quotes, depth, replaying stored
    requests), the users and their locked balances (`user.rs`), the engine
    that runs one book per market (`engine.rs`), and the properties proved
    of them (`laws.rs`).
  - `archiever/` — users, balances, orders and trades as they are stored.
  - `backend/` — request bodies, queue names, session tokens.
  - `wss/` — what clients subscribe to, and the channels the broadcasters
    listen on.
  - `loadtesting/` — the request bodies of the load generator.
- `tests/` — tests of the library on concrete values.
- `app/` — the programs around the library: `engine` loads the users and
  rebuilds the order books from the Scylla database on start, `backend` serves the HTTP API
  over Redis queues, `wss` forwards market data to websocket clients.
