use exchange::clock::{millis_of, micros_of};
use exchange::decimal::Dec;
use exchange::engine::matching::engine::{setup_engine_and_users, MatchingEngine};
use exchange::engine::matching::error::MatchingEngineErrors;
use exchange::engine::matching::orderbook::{
    replay_since, Order, OrderRequest, Orderbook, ReplayError, REPLAY_WINDOW_MS,
};
use exchange::engine::matching::user::{ScyllaUser, Users};
use exchange::engine::matching::{
    cancel_row, get_epoch_micro, get_epoch_ms, Asset, Exchange, OrderSide, OrderStatus, OrderType,
    RecievedOrder, ScyllaCancelOrder, ScyllaOrder,
};

fn d(s: &str) -> Dec {
    Dec::from_str(s).expect("a decimal")
}

fn text(x: Dec) -> String {
    x.to_string()
}

fn sol() -> Exchange {
    Exchange::new(Asset::SOL, Asset::USDT)
}

fn limit(id: u64, user: u64, side: OrderSide, qty: &str) -> Order {
    Order::new(id, 1000 + id, side, d(qty), OrderType::Limit, user)
}

fn recieved(id: i64, symbol: &str, side: OrderSide, price: &str, qty: &str, ts: i64) -> RecievedOrder {
    RecievedOrder {
        id,
        user_id: 3,
        symbol: symbol.to_string(),
        price: d(price),
        initial_quantity: d(qty),
        filled_quantity: Dec::zero(),
        quote_quantity: Dec::zero(),
        filled_quote_quantity: Dec::zero(),
        order_type: OrderType::Limit,
        order_side: side,
        order_status: OrderStatus::InProgress,
        timestamp: ts,
    }
}

fn cancel(id: i64, side: &str, price: &str, ts: i64) -> OrderRequest {
    OrderRequest::Cancel(ScyllaCancelOrder {
        id,
        user_id: 3,
        order_side: side.to_string(),
        symbol: "SOL_USDT".to_string(),
        price: price.to_string(),
        timestamp: ts,
    })
}

fn no_users() -> Users {
    Users { users: std::collections::HashMap::new() }
}

fn row(id: i64, balance: &[(&str, &str)], locked: &[(&str, &str)]) -> ScyllaUser {
    let texts = |v: &[(&str, &str)]| v.iter().map(|(a, q)| (a.to_string(), q.to_string())).collect::<Vec<_>>();
    ScyllaUser { id, balance: texts(balance), locked_balance: texts(locked) }
}

fn book_of<'a>(engine: &'a MatchingEngine, symbol: &str) -> &'a Orderbook {
    engine
        .orderbook
        .iter()
        .find(|b| b.exchange.symbol == symbol)
        .expect("a book for the symbol")
}

#[test]
fn add_new_market_refuses_a_second_book() {
    let mut engine = MatchingEngine::init();
    assert!(engine.orderbook.is_empty());
    assert_eq!(engine.add_new_market(sol()), Ok(()));
    assert_eq!(engine.add_new_market(Exchange::new(Asset::BTC, Asset::USDT)), Ok(()));
    assert_eq!(engine.add_new_market(sol()), Err(MatchingEngineErrors::ExchangeAlreadyExist));
    assert_eq!(engine.orderbook.len(), 2);
    assert_eq!(engine.orderbook[0].exchange.symbol, "SOL_USDT");
    assert_eq!(engine.orderbook[1].exchange.symbol, "BTC_USDT");
}

#[test]
fn engine_counts_order_ids_per_market() {
    let mut engine = MatchingEngine::init();
    engine.add_new_market(sol()).unwrap();
    engine.add_new_market(Exchange::new(Asset::ETH, Asset::USDT)).unwrap();
    assert_eq!(engine.increment_order_id(&sol()), 1);
    assert_eq!(engine.increment_order_id(&sol()), 2);
    assert_eq!(engine.increment_order_id(&Exchange::new(Asset::ETH, Asset::USDT)), 1);
    assert_eq!(engine.orderbook[0].order_id, 2);
}

#[test]
fn engine_levels_and_quotes_come_from_the_market_book() {
    let mut engine = MatchingEngine::init();
    engine.add_new_market(sol()).unwrap();
    let mut book = Orderbook::new(sol());
    book.add_limit_order(d("101"), limit(1, 1, OrderSide::Ask, "3"));
    book.add_limit_order(d("100"), limit(2, 1, OrderSide::Ask, "5"));
    book.add_limit_order(d("90"), limit(3, 2, OrderSide::Bid, "1"));
    book.add_limit_order(d("95"), limit(4, 2, OrderSide::Bid, "1"));
    engine.put_book(book);
    assert_eq!(engine.orderbook.len(), 1);
    let asks: Vec<String> = engine.get_asks(&sol()).iter().map(|l| text(l.price)).collect();
    let bids: Vec<String> = engine.get_bids(&sol()).iter().map(|l| text(l.price)).collect();
    assert_eq!(asks, vec!["100", "101"]);
    assert_eq!(bids, vec!["95", "90"]);
    assert_eq!(text(engine.get_quote(&OrderSide::Bid, d("6"), &sol()).unwrap()), "601");
    assert_eq!(
        engine.get_quote(&OrderSide::Ask, d("3"), &sol()).unwrap_err(),
        MatchingEngineErrors::AskedMoreThanTradeable
    );
}

#[test]
fn registered_exchange_lists_every_symbol() {
    let engine = MatchingEngine::init();
    assert_eq!(engine.registered_exchange(), vec!["SOL_USDT", "BTC_USDT", "ETH_USDT"]);
}

#[test]
fn put_book_replaces_only_its_market() {
    let mut engine = MatchingEngine::init();
    engine.add_new_market(sol()).unwrap();
    engine.add_new_market(Exchange::new(Asset::BTC, Asset::USDT)).unwrap();
    let mut book = Orderbook::new(sol());
    book.trade_id = 42;
    engine.put_book(book);
    assert_eq!(engine.orderbook.len(), 2);
    assert_eq!(book_of(&engine, "SOL_USDT").trade_id, 42);
    assert_eq!(book_of(&engine, "BTC_USDT").trade_id, 0);
    engine.put_book(Orderbook::new(Exchange::new(Asset::ETH, Asset::USDT)));
    assert_eq!(engine.orderbook.len(), 3);
}

#[test]
fn recover_orderbook_sets_counters_and_replays() {
    let mut book = Orderbook::new(sol());
    let requests = vec![
        cancel(5, "Ask", "100", 30),
        OrderRequest::Normal(recieved(5, "SOL_USDT", OrderSide::Ask, "100", "1", 20)),
        OrderRequest::Normal(recieved(6, "SOL_USDT", OrderSide::Bid, "99", "2", 25)),
    ];
    assert_eq!(book.recover_orderbook(17, 40, requests), Ok(()));
    assert_eq!(book.trade_id, 17);
    assert_eq!(book.order_id, 40);
    assert_eq!(book.bids.len(), 1);
    assert_eq!(book.bids[0].orders[0].id, 6);
    assert!(book.asks[0].orders.is_empty());
}

#[test]
fn recover_orderbook_trades_advance_the_trade_counter() {
    let mut book = Orderbook::new(sol());
    let requests = vec![
        OrderRequest::Normal(recieved(1, "SOL_USDT", OrderSide::Ask, "100", "1", 1)),
        OrderRequest::Normal(recieved(2, "SOL_USDT", OrderSide::Bid, "100", "1", 2)),
    ];
    assert_eq!(book.recover_orderbook(7, 2, requests), Ok(()));
    assert_eq!(book.trade_id, 8);
    assert!(book.asks[0].orders.is_empty());
}

#[test]
fn recover_all_orderbooks_builds_every_registered_market() {
    let mut engine = MatchingEngine::init();
    let requests = vec![
        vec![OrderRequest::Normal(recieved(1, "SOL_USDT", OrderSide::Bid, "20", "1", 5))],
        vec![],
        vec![OrderRequest::Normal(recieved(2, "ETH_USDT", OrderSide::Ask, "3000", "2", 6))],
    ];
    let mut users = no_users();
    assert_eq!(engine.recover_all_orderbooks(&mut users, vec![], 9, 2, requests), Ok(()));
    assert_eq!(engine.orderbook.len(), 3);
    let sol_book = book_of(&engine, "SOL_USDT");
    assert_eq!(sol_book.trade_id, 9);
    assert_eq!(sol_book.order_id, 2);
    assert_eq!(sol_book.bids[0].orders[0].id, 1);
    assert!(book_of(&engine, "BTC_USDT").asks.is_empty());
    assert_eq!(text(book_of(&engine, "ETH_USDT").asks[0].price), "3000");
}

#[test]
fn recover_all_orderbooks_stops_at_a_failing_market() {
    let mut engine = MatchingEngine::init();
    let requests = vec![vec![], vec![cancel(1, "Up", "1", 1)], vec![]];
    let mut users = no_users();
    assert_eq!(
        engine.recover_all_orderbooks(&mut users, vec![], 0, 0, requests),
        Err(ReplayError::InvalidOrderSide)
    );
    assert_eq!(engine.orderbook.len(), 1);
    assert_eq!(engine.orderbook[0].exchange.symbol, "SOL_USDT");
}

#[test]
fn cancel_row_records_the_cancellation() {
    let row = cancel_row(12, 4, OrderSide::Ask, "SOL_USDT", d("100.50"), 99);
    assert_eq!(row.id, 12);
    assert_eq!(row.user_id, 4);
    assert_eq!(row.order_side, "Ask");
    assert_eq!(row.symbol, "SOL_USDT");
    assert_eq!(row.price, "100.50");
    assert_eq!(row.timestamp, 99);
}

#[test]
fn order_rows_round_trip() {
    let mut order = recieved(8, "SOL_USDT", OrderSide::Bid, "12.5", "4", 33);
    order.order_status = OrderStatus::PartiallyFilled;
    order.filled_quantity = d("1.5");
    let row: ScyllaOrder = order.to_scylla_order();
    assert_eq!(row.price, "12.5");
    assert_eq!(row.filled_quantity, "1.5");
    assert_eq!(row.order_side, "Bid");
    assert_eq!(row.order_type, "Limit");
    assert_eq!(row.order_status, "PartiallyFilled");
    let back = row.from_scylla_order();
    assert_eq!(back.id, 8);
    assert_eq!(text(back.price), "12.5");
    assert_eq!(text(back.filled_quantity), "1.5");
    assert_eq!(back.order_status, OrderStatus::PartiallyFilled);
    assert_eq!(back.timestamp, 33);
}

#[test]
fn order_rows_that_do_not_parse_are_refused() {
    let mut row = recieved(8, "SOL_USDT", OrderSide::Bid, "1", "1", 1).to_scylla_order();
    row.order_status = "Open".to_string();
    assert!(row.try_from_scylla_order().is_none());
    let mut row = recieved(8, "SOL_USDT", OrderSide::Bid, "1", "1", 1).to_scylla_order();
    row.price = "one".to_string();
    assert!(row.try_from_scylla_order().is_none());
}

#[test]
fn epoch_clocks_read_after_1970() {
    let ms = get_epoch_ms().expect("a time after 1970");
    let us = get_epoch_micro().expect("a time after 1970");
    assert!(ms > 1_600_000_000_000);
    assert!(us >= ms as u128 * 1000);
    assert_eq!(millis_of(2, 500_000_000), 2500);
    assert_eq!(micros_of(2, 500_000_000), 2_500_000);
}

#[test]
fn replay_starts_a_day_back() {
    assert_eq!(REPLAY_WINDOW_MS, 86_400_000);
    assert_eq!(replay_since(100_000_000), 13_600_000);
    assert_eq!(replay_since(0), -86_400_000);
}

#[test]
fn setup_opens_the_sol_market() {
    let (engine, exchange, book, ids) = setup_engine_and_users();
    assert_eq!(engine.orderbook.len(), 1);
    assert_eq!(engine.orderbook[0].exchange.symbol, "SOL_USDT");
    assert_eq!(exchange.symbol, "SOL_USDT");
    assert!(book.asks.is_empty() && book.bids.is_empty());
    assert_eq!(ids, vec![1, 2, 3, 4, 5, 6, 7, 8]);
}

#[test]
fn recover_all_orderbooks_loads_every_user() {
    let mut engine = MatchingEngine::init();
    let mut users = no_users();
    let rows = vec![
        row(1, &[("USDT", "100")], &[("USDT", "20")]),
        row(2, &[("SOL", "3")], &[]),
        row(1, &[("USDT", "150")], &[("SOL", "1")]),
    ];
    assert_eq!(engine.recover_all_orderbooks(&mut users, rows, 0, 0, vec![vec![], vec![], vec![]]), Ok(()));
    assert_eq!(users.users.len(), 2);
    let first = &users.users[&1];
    assert_eq!(first.id, 1);
    assert_eq!(text(first.balance.get(&Asset::USDT).unwrap()), "150");
    assert_eq!(text(first.locked_balance.get(&Asset::SOL).unwrap()), "1");
    assert!(first.locked_balance.get(&Asset::USDT).is_none());
    assert_eq!(text(users.users[&2].balance.get(&Asset::SOL).unwrap()), "3");
    assert_eq!(engine.orderbook.len(), 3);
}

#[test]
fn recover_all_orderbooks_refuses_an_unreadable_user() {
    let mut engine = MatchingEngine::init();
    let mut users = no_users();
    let rows = vec![row(1, &[("USDT", "100")], &[]), row(2, &[("USDT", "many")], &[])];
    assert_eq!(
        engine.recover_all_orderbooks(&mut users, rows, 0, 0, vec![vec![], vec![], vec![]]),
        Err(ReplayError::UnreadableUser)
    );
    assert!(users.users.is_empty());
    assert!(engine.orderbook.is_empty());
}
