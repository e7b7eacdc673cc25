use exchange::decimal::Dec;
use exchange::engine::matching::error::MatchingEngineErrors;
use exchange::engine::matching::limit::Limit;
use exchange::engine::matching::orderbook::{Order, OrderRequest, Orderbook, ReplayError};
use exchange::engine::matching::user::{Balances, User, Users};
use exchange::engine::matching::{
    Asset, Exchange, OrderSide, OrderStatus, OrderType, RecievedOrder, ScyllaCancelOrder,
};
use std::collections::HashMap;

fn d(s: &str) -> Dec {
    Dec::from_str(s).expect("a decimal")
}

fn text(x: Dec) -> String {
    x.to_string()
}

fn book() -> Orderbook {
    Orderbook::new(Exchange::new(Asset::SOL, Asset::USDT))
}

fn limit(id: u64, user: u64, side: OrderSide, qty: &str) -> Order {
    Order::new(id, 1000 + id, side, d(qty), OrderType::Limit, user)
}

fn users_with(id: u64, locked: &[(&str, &str)]) -> Users {
    let texts: Vec<(String, String)> = locked.iter().map(|(a, q)| (a.to_string(), q.to_string())).collect();
    let user = User { id, balance: Balances::new(), locked_balance: Balances::from_texts(&texts).expect("balances") };
    let mut users = HashMap::new();
    users.insert(id, user);
    Users { users }
}

fn pairs(v: &[(String, String)]) -> Vec<(&str, &str)> {
    v.iter().map(|(a, q)| (a.as_str(), q.as_str())).collect()
}

fn prices(levels: &[Limit]) -> Vec<String> {
    levels.iter().map(|l| text(l.price)).collect()
}

fn ids(level: &Limit) -> Vec<u64> {
    level.orders.iter().map(|o| o.id).collect()
}

#[test]
fn order_new_starts_unfilled() {
    let o = Order::new(7, 99, OrderSide::Bid, d("2.5"), OrderType::Market, 3);
    assert_eq!(o.id, 7);
    assert_eq!(o.timestamp, 99);
    assert_eq!(o.user_id, 3);
    assert_eq!(text(o.quantity), "2.5");
    assert_eq!(text(o.initial_quantity), "2.5");
    assert!(o.filled_quote_quantity.is_zero());
    assert_eq!(o.order_status, OrderStatus::InProgress);
    assert!(!o.is_filled());
    assert!(Order::new(8, 0, OrderSide::Ask, d("0.0"), OrderType::Limit, 1).is_filled());
}

#[test]
fn limits_queue_orders_and_sides_stay_sorted() {
    let mut b = book();
    b.add_limit_order(d("101"), limit(1, 10, OrderSide::Ask, "1"));
    b.add_limit_order(d("100"), limit(2, 10, OrderSide::Ask, "1"));
    b.add_limit_order(d("100.0"), limit(3, 11, OrderSide::Ask, "1"));
    b.add_limit_order(d("99"), limit(4, 12, OrderSide::Bid, "1"));
    b.add_limit_order(d("98"), limit(5, 12, OrderSide::Bid, "1"));
    b.add_limit_order(d("99.5"), limit(6, 12, OrderSide::Bid, "1"));
    assert_eq!(prices(&b.asks), vec!["100", "101"]);
    assert_eq!(ids(&b.asks[0]), vec![2, 3]);
    assert_eq!(prices(&b.bids), vec!["99.5", "99", "98"]);
    assert_eq!(b.trade_id, 0);
}

#[test]
fn increment_order_id_counts_up() {
    let mut b = book();
    assert_eq!(b.increment_order_id(), 1);
    assert_eq!(b.increment_order_id(), 2);
    assert_eq!(b.order_id, 2);
}

#[test]
fn cancel_order_gives_back_the_order() {
    let mut b = book();
    b.add_limit_order(d("100"), limit(1, 10, OrderSide::Ask, "5"));
    b.add_limit_order(d("100"), limit(2, 11, OrderSide::Ask, "3"));
    let got = b.cancel_order(1, &OrderSide::Ask, &d("100.00")).unwrap();
    assert_eq!(got.id, 1);
    assert_eq!(text(got.quantity), "5");
    assert_eq!(ids(&b.asks[0]), vec![2]);
    assert_eq!(
        b.cancel_order(1, &OrderSide::Ask, &d("100")).unwrap_err(),
        MatchingEngineErrors::InvalidOrderId
    );
    assert_eq!(
        b.cancel_order(2, &OrderSide::Ask, &d("101")).unwrap_err(),
        MatchingEngineErrors::InvalidPriceLimitOrOrderSide
    );
    assert_eq!(
        b.cancel_order(2, &OrderSide::Bid, &d("100")).unwrap_err(),
        MatchingEngineErrors::InvalidPriceLimitOrOrderSide
    );
}

#[test]
fn cancel_after_add_leaves_an_empty_level() {
    let mut b = book();
    b.add_limit_order(d("42"), limit(9, 1, OrderSide::Bid, "1"));
    let got = b.cancel_order(9, &OrderSide::Bid, &d("42")).unwrap();
    assert_eq!(got.id, 9);
    assert_eq!(prices(&b.bids), vec!["42"]);
    assert!(b.bids[0].orders.is_empty());
}

#[test]
fn market_sell_walks_the_bids() {
    let mut b = book();
    b.add_limit_order(d("50"), limit(1, 1, OrderSide::Bid, "2"));
    b.add_limit_order(d("49"), limit(2, 2, OrderSide::Bid, "4"));
    let taker = Order::new(3, 5000, OrderSide::Ask, d("3"), OrderType::Market, 9);
    let (executed, quote, status, fills) = b.fill_market_order(taker, true);
    // the executed quantity adds up what the order has filled so far after
    // each level: 2 after the first, then 3 after the second
    assert_eq!(text(executed), "5");
    assert_eq!(text(quote), "247");
    assert_eq!(status, OrderStatus::Filled);
    assert_eq!(fills.len(), 2);
    assert_eq!((fills[0].trade_id, fills[1].trade_id), (1, 2));
    assert_eq!((fills[0].maker_order_id, fills[1].maker_order_id), (1, 2));
    assert_eq!((text(fills[0].quantity), text(fills[1].quantity)), ("2".to_string(), "1".to_string()));
    assert_eq!(fills[0].maker_status, OrderStatus::Filled);
    assert_eq!(fills[1].maker_status, OrderStatus::PartiallyFilled);
    assert_eq!(b.trade_id, 2);
    assert!(b.bids[0].orders.is_empty());
    assert_eq!(text(b.bids[1].orders[0].quantity), "3");
    assert!(b.asks.is_empty());
}

#[test]
fn market_order_without_liquidity_does_not_rest() {
    let mut b = book();
    let taker = Order::new(1, 0, OrderSide::Bid, d("3"), OrderType::Market, 9);
    let (executed, quote, status, fills) = b.fill_market_order(taker, true);
    assert!(executed.is_zero() && quote.is_zero());
    assert_eq!(status, OrderStatus::InProgress);
    assert!(fills.is_empty());
    assert!(b.bids.is_empty() && b.asks.is_empty());
}

#[test]
fn crossing_limit_bid_trades_at_the_ask_prices() {
    let mut b = book();
    b.add_limit_order(d("100"), limit(1, 10, OrderSide::Ask, "5"));
    b.add_limit_order(d("101"), limit(2, 11, OrderSide::Ask, "3"));
    let taker = Order::new(3, 7, OrderSide::Bid, d("6"), OrderType::Limit, 12);
    let (executed, quote, status, fills) = b.fill_limit_order(d("101"), taker, true);
    assert_eq!(text(executed), "11");
    assert_eq!(text(quote), "1106");
    assert_eq!(status, OrderStatus::Filled);
    assert_eq!(fills.len(), 2);
    assert_eq!(text(fills[0].price), "100");
    assert_eq!(text(fills[1].price), "101");
    assert_eq!(b.trade_id, 2);
    assert!(b.asks[0].orders.is_empty());
    assert_eq!(text(b.asks[1].orders[0].quantity), "2");
    assert_eq!(b.asks[1].orders[0].order_status, OrderStatus::PartiallyFilled);
    assert!(b.bids.is_empty());
}

#[test]
fn limit_bid_outlasting_the_asks_rests_at_the_last_ask_price() {
    let mut b = book();
    b.add_limit_order(d("100"), limit(1, 10, OrderSide::Ask, "2"));
    b.add_limit_order(d("102"), limit(2, 11, OrderSide::Ask, "3"));
    let taker = Order::new(3, 7, OrderSide::Bid, d("10"), OrderType::Limit, 12);
    let (executed, quote, status, fills) = b.fill_limit_order(d("105"), taker, true);
    assert_eq!(text(executed), "7");
    assert_eq!(text(quote), "710");
    assert_eq!(status, OrderStatus::PartiallyFilled);
    assert_eq!(fills.len(), 2);
    assert_eq!(prices(&b.bids), vec!["102"]);
    assert_eq!(ids(&b.bids[0]), vec![3]);
    assert_eq!(text(b.bids[0].orders[0].quantity), "5");
}

#[test]
fn limit_ask_trades_at_its_own_price_and_rests_the_rest() {
    let mut b = book();
    b.add_limit_order(d("50"), limit(1, 1, OrderSide::Bid, "1"));
    let taker = Order::new(2, 7, OrderSide::Ask, d("4"), OrderType::Limit, 2);
    let (executed, quote, status, fills) = b.fill_limit_order(d("48"), taker, true);
    assert_eq!(text(executed), "1");
    assert_eq!(text(quote), "48");
    assert_eq!(status, OrderStatus::PartiallyFilled);
    assert_eq!(text(fills[0].price), "48");
    assert_eq!(prices(&b.asks), vec!["48"]);
    assert_eq!(text(b.asks[0].orders[0].quantity), "3");
}

#[test]
fn uncrossed_limit_rests_whole() {
    let mut b = book();
    b.add_limit_order(d("50"), limit(1, 1, OrderSide::Bid, "1"));
    let taker = Order::new(2, 7, OrderSide::Ask, d("4"), OrderType::Limit, 2);
    let (executed, quote, status, fills) = b.fill_limit_order(d("60"), taker, false);
    assert!(executed.is_zero() && quote.is_zero());
    assert_eq!(status, OrderStatus::InProgress);
    assert!(fills.is_empty());
    assert_eq!(prices(&b.asks), vec!["60"]);
    assert_eq!(b.trade_id, 0);
    let taker = Order::new(3, 8, OrderSide::Bid, d("1"), OrderType::Limit, 2);
    let r = b.try_fill_limit_order(d("10"), taker, true).unwrap();
    assert!(r.3.is_empty());
    assert_eq!(prices(&b.bids), vec!["50", "10"]);
}

#[test]
fn get_quote_walks_the_levels() {
    let mut b = book();
    b.add_limit_order(d("100"), limit(1, 10, OrderSide::Ask, "5"));
    b.add_limit_order(d("101"), limit(2, 11, OrderSide::Ask, "3"));
    assert_eq!(text(b.get_quote(&OrderSide::Bid, d("6")).unwrap()), "601");
    assert_eq!(text(b.get_quote(&OrderSide::Bid, d("5")).unwrap()), "500");
    assert_eq!(
        b.get_quote(&OrderSide::Bid, d("10")).unwrap_err(),
        MatchingEngineErrors::AskedMoreThanTradeable
    );
    assert_eq!(
        b.get_quote(&OrderSide::Ask, d("1")).unwrap_err(),
        MatchingEngineErrors::AskedMoreThanTradeable
    );
    assert_eq!(b.try_get_quote(&OrderSide::Bid, d("6")).map(|r| r.map(text)), Some(Ok("601".to_string())));
}

#[test]
fn depth_sums_each_level() {
    let mut b = book();
    b.add_limit_order(d("100"), limit(1, 10, OrderSide::Ask, "5"));
    b.add_limit_order(d("100"), limit(2, 11, OrderSide::Ask, "2.5"));
    b.add_limit_order(d("90"), limit(3, 12, OrderSide::Bid, "1"));
    b.add_limit_order(d("91"), limit(4, 12, OrderSide::Bid, "2"));
    let (bids, asks) = b.get_depth();
    let show = |v: &Vec<(Dec, Dec)>| v.iter().map(|(p, q)| (text(*p), text(*q))).collect::<Vec<_>>();
    assert_eq!(show(&bids), vec![("91".to_string(), "2".to_string()), ("90".to_string(), "1".to_string())]);
    assert_eq!(show(&asks), vec![("100".to_string(), "7.5".to_string())]);
    assert_eq!(text(b.asks[0].total_volume()), "7.5");
}

#[test]
fn open_orders_and_cancel_all() {
    let mut b = book();
    b.add_limit_order(d("100"), limit(1, 10, OrderSide::Ask, "5"));
    b.add_limit_order(d("100"), limit(2, 11, OrderSide::Ask, "3"));
    b.add_limit_order(d("90"), limit(3, 10, OrderSide::Bid, "2"));
    let open = b.get_open_orders(10);
    assert_eq!(open.iter().map(|(_, o)| o.id).collect::<Vec<_>>(), vec![1, 3]);
    let mut users = users_with(10, &[("SOL", "10"), ("USDT", "1000")]);
    let (records, locked) = b.cancel_all_orders(&mut users, 10);
    assert_eq!(records.len(), 2);
    assert_eq!(records[0].id, 1);
    assert_eq!(records[0].symbol, "SOL_USDT");
    assert_eq!(records[0].order_status, OrderStatus::Cancelled);
    assert_eq!(text(records[0].quote_quantity), "500");
    assert!(records[0].filled_quantity.is_zero());
    assert_eq!(records[1].order_side, OrderSide::Bid);
    assert_eq!(pairs(&locked), vec![("SOL", "5"), ("USDT", "820")]);
    let user = &users.users[&10];
    assert_eq!(text(user.locked_balance.get(&Asset::SOL).unwrap()), "5");
    assert_eq!(text(user.locked_balance.get(&Asset::USDT).unwrap()), "820");
    assert!(b.get_open_orders(10).is_empty());
    assert_eq!(b.get_open_orders(11).len(), 1);
    assert_eq!(prices(&b.bids), vec!["90"]);
    assert!(b.bids[0].orders.is_empty());
}

#[test]
fn bid_and_ask_limits_sort_copies() {
    let levels = vec![
        Limit::new(d("3")),
        Limit::new(d("1")),
        Limit::new(d("2")),
    ];
    assert_eq!(prices(&Orderbook::ask_limits(&levels)), vec!["1", "2", "3"]);
    assert_eq!(prices(&Orderbook::bid_limits(&levels)), vec!["3", "2", "1"]);
}

fn recieved(id: i64, side: OrderSide, order_type: OrderType, price: &str, qty: &str, ts: i64) -> RecievedOrder {
    RecievedOrder {
        id,
        user_id: 1,
        symbol: "SOL_USDT".to_string(),
        price: d(price),
        initial_quantity: d(qty),
        filled_quantity: Dec::zero(),
        quote_quantity: Dec::zero(),
        filled_quote_quantity: Dec::zero(),
        order_type,
        order_side: side,
        order_status: OrderStatus::InProgress,
        timestamp: ts,
    }
}

#[test]
fn process_order_builds_and_matches() {
    let mut b = book();
    b.add_limit_order(d("10"), limit(1, 1, OrderSide::Ask, "2"));
    let r = recieved(55, OrderSide::Bid, OrderType::Market, "0", "1", 77);
    let (executed, quote, status, fills) = b.process_order(&r, 8);
    assert_eq!(text(executed), "1");
    assert_eq!(text(quote), "10");
    assert_eq!(status, OrderStatus::Filled);
    assert_eq!(fills[0].taker_order_id, 8);
    let r = recieved(56, OrderSide::Ask, OrderType::Limit, "12", "1", 78);
    let out = b.try_process_order(&r, 9).unwrap();
    assert!(out.3.is_empty());
    assert_eq!(prices(&b.asks), vec!["10", "12"]);
}

fn cancel(id: i64, side: &str, price: &str, ts: i64) -> OrderRequest {
    OrderRequest::Cancel(ScyllaCancelOrder {
        id,
        user_id: 1,
        order_side: side.to_string(),
        symbol: "SOL_USDT".to_string(),
        price: price.to_string(),
        timestamp: ts,
    })
}

#[test]
fn replay_sorts_by_time_and_applies() {
    let mut b = book();
    let requests = vec![
        OrderRequest::Normal(recieved(5, OrderSide::Ask, OrderType::Limit, "100", "1", 20)),
        cancel(5, "Ask", "100", 30),
        OrderRequest::Normal(recieved(4, OrderSide::Bid, OrderType::Limit, "99", "2", 10)),
    ];
    assert_eq!(b.replay_orders(requests), Ok(()));
    assert_eq!(prices(&b.bids), vec!["99"]);
    assert_eq!(ids(&b.bids[0]), vec![4]);
    assert_eq!(prices(&b.asks), vec!["100"]);
    assert!(b.asks[0].orders.is_empty());
    assert_eq!(b.trade_id, 0);
}

#[test]
fn replay_stops_at_the_first_failure() {
    let mut b = book();
    assert_eq!(b.replay_orders(vec![cancel(1, "Sell", "1", 1)]), Err(ReplayError::InvalidOrderSide));
    assert_eq!(b.replay_orders(vec![cancel(1, "Bid", "x", 1)]), Err(ReplayError::InvalidPrice));
    let requests = vec![
        OrderRequest::Normal(recieved(4, OrderSide::Bid, OrderType::Limit, "99", "2", 10)),
        cancel(7, "Bid", "99", 11),
        OrderRequest::Normal(recieved(5, OrderSide::Bid, OrderType::Limit, "98", "2", 12)),
    ];
    assert_eq!(
        b.replay_orders(requests),
        Err(ReplayError::Cancel(MatchingEngineErrors::InvalidOrderId))
    );
    assert_eq!(prices(&b.bids), vec!["99"]);
    assert_eq!(text(b.bids[0].orders[0].quantity), "2");
}

#[test]
fn cancelling_all_twice_changes_nothing_more() {
    let mut b = book();
    b.add_limit_order(d("100"), limit(1, 10, OrderSide::Ask, "5"));
    b.add_limit_order(d("90"), limit(2, 10, OrderSide::Bid, "2"));
    b.add_limit_order(d("100"), limit(3, 11, OrderSide::Ask, "1"));
    let mut users = users_with(10, &[("SOL", "5"), ("USDT", "180")]);
    let (first, locked) = b.cancel_all_orders(&mut users, 10);
    assert_eq!(first.len(), 2);
    assert_eq!(pairs(&locked), vec![("SOL", "0"), ("USDT", "0")]);
    let (second, locked_again) = b.cancel_all_orders(&mut users, 10);
    assert!(second.is_empty());
    assert_eq!(locked_again, locked);
    assert_eq!(b.get_open_orders(11).len(), 1);
}

#[test]
fn cancelling_all_for_an_unknown_user_changes_nothing() {
    let mut b = book();
    b.add_limit_order(d("100"), limit(1, 10, OrderSide::Ask, "5"));
    let mut users = users_with(11, &[("SOL", "5")]);
    assert!(b.try_cancel_all_orders(&mut users, 10).is_none());
    assert_eq!(b.get_open_orders(10).len(), 1);
    assert_eq!(users.users.len(), 1);
}

#[test]
fn cancelling_all_needs_the_locked_asset() {
    let mut b = book();
    b.add_limit_order(d("90"), limit(1, 10, OrderSide::Bid, "2"));
    let mut users = users_with(10, &[("SOL", "5")]);
    assert!(b.try_cancel_all_orders(&mut users, 10).is_none());
    assert_eq!(b.get_open_orders(10).len(), 1);
    assert_eq!(text(users.users[&10].locked_balance.get(&Asset::SOL).unwrap()), "5");
}

fn open_prices(levels: &[Limit]) -> Vec<String> {
    levels
        .iter()
        .filter(|l| l.orders.iter().any(|o| o.quantity.is_positive()))
        .map(|l| text(l.price))
        .collect()
}

#[test]
fn crossing_limit_bid_leaves_the_book_uncrossed() {
    let mut b = book();
    b.add_limit_order(d("95"), limit(1, 1, OrderSide::Bid, "1"));
    b.add_limit_order(d("100"), limit(2, 2, OrderSide::Ask, "2"));
    b.add_limit_order(d("103"), limit(3, 2, OrderSide::Ask, "4"));
    let taker = Order::new(4, 7, OrderSide::Bid, d("3"), OrderType::Limit, 3);
    b.fill_limit_order(d("101"), taker, true);
    assert_eq!(open_prices(&b.bids), vec!["101", "95"]);
    assert_eq!(open_prices(&b.asks), vec!["103"]);
    assert_eq!(text(b.bids[0].orders[0].quantity), "1");
}

#[test]
fn crossing_limit_ask_leaves_the_book_uncrossed() {
    let mut b = book();
    b.add_limit_order(d("105"), limit(1, 1, OrderSide::Ask, "1"));
    b.add_limit_order(d("100"), limit(2, 2, OrderSide::Bid, "2"));
    b.add_limit_order(d("97"), limit(3, 2, OrderSide::Bid, "4"));
    let taker = Order::new(4, 7, OrderSide::Ask, d("3"), OrderType::Limit, 3);
    b.fill_limit_order(d("99"), taker, true);
    assert_eq!(open_prices(&b.asks), vec!["99", "105"]);
    assert_eq!(open_prices(&b.bids), vec!["97"]);
    assert_eq!(text(b.asks[0].orders[0].quantity), "1");
}

#[test]
fn negative_quantity_limit_bid_can_cross_the_book() {
    let mut b = book();
    b.add_limit_order(d("100"), limit(1, 1, OrderSide::Bid, "1"));
    b.add_limit_order(d("99"), limit(2, 2, OrderSide::Ask, "0"));
    assert!(open_prices(&b.asks).is_empty());
    let taker = Order::new(3, 7, OrderSide::Bid, d("-2"), OrderType::Limit, 3);
    b.fill_limit_order(d("105"), taker, true);
    assert_eq!(open_prices(&b.bids), vec!["100"]);
    assert_eq!(open_prices(&b.asks), vec!["99"]);
    assert_eq!(text(b.asks[0].orders[0].quantity), "2");
}

#[test]
fn cancelling_all_twice_for_an_unknown_user_fails_twice() {
    let mut b = book();
    b.add_limit_order(d("100"), limit(1, 10, OrderSide::Ask, "5"));
    let mut users = users_with(11, &[("SOL", "5")]);
    assert!(b.try_cancel_all_orders(&mut users, 10).is_none());
    assert!(b.try_cancel_all_orders(&mut users, 10).is_none());
    assert_eq!(b.get_open_orders(10).len(), 1);
    assert_eq!(text(users.users[&11].locked_balance.get(&Asset::SOL).unwrap()), "5");
}
