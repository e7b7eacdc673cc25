use exchange::decimal::Dec;
use exchange::engine::matching::orderbook::{Order, OrderRequest, Orderbook};
use exchange::engine::matching::{
    cancel_row, Asset, Exchange, OrderSide, OrderStatus, OrderType, RecievedOrder, ScyllaCancelOrder,
};
use exchange::archiever::state::user::Balances;
use exchange::engine::matching::user::{Balances as EngineBalances, User, Users};
use std::collections::HashMap;
use exchange::wss::broadcasters::{channel_symbol, channels};
use exchange::wss::enums::registered_symbols::RegisteredSymbols;

fn d(s: &str) -> Dec {
    Dec::from_str(s).expect("a decimal")
}

fn book() -> Orderbook {
    Orderbook::new(Exchange::new(Asset::SOL, Asset::USDT))
}

fn order(id: u64, user: u64, side: OrderSide, qty: &str) -> Order {
    Order::new(id, 500 + id, side, d(qty), OrderType::Limit, user)
}

fn ids(b: &Orderbook, side: OrderSide) -> Vec<Vec<u64>> {
    let levels = match side {
        OrderSide::Ask => &b.asks,
        OrderSide::Bid => &b.bids,
    };
    levels.iter().map(|l| l.orders.iter().map(|o| o.id).collect()).collect()
}

#[test]
fn adding_then_cancelling_restores_the_level() {
    let mut b = book();
    b.add_limit_order(d("10"), order(1, 1, OrderSide::Bid, "1"));
    b.add_limit_order(d("11"), order(2, 1, OrderSide::Bid, "1"));
    let before = ids(&b, OrderSide::Bid);
    b.add_limit_order(d("10"), order(3, 2, OrderSide::Bid, "4"));
    let cancelled = b.cancel_order(3, &OrderSide::Bid, &d("10")).unwrap();
    assert_eq!(cancelled.id, 3);
    assert_eq!(cancelled.quantity.to_string(), "4");
    assert_eq!(ids(&b, OrderSide::Bid), before);
}

#[test]
fn cancelling_all_leaves_other_users_orders() {
    let mut b = book();
    b.add_limit_order(d("10"), order(1, 1, OrderSide::Ask, "1"));
    b.add_limit_order(d("10"), order(2, 2, OrderSide::Ask, "1"));
    b.add_limit_order(d("9"), order(3, 1, OrderSide::Bid, "1"));
    b.add_limit_order(d("8"), order(4, 2, OrderSide::Bid, "1"));
    let others_before = b.get_open_orders(2);
    let texts = vec![("SOL".to_string(), "1".to_string()), ("USDT".to_string(), "9".to_string())];
    let user = User { id: 1, balance: EngineBalances::new(), locked_balance: EngineBalances::from_texts(&texts).unwrap() };
    let mut map = HashMap::new();
    map.insert(1, user);
    let mut users = Users { users: map };
    b.cancel_all_orders(&mut users, 1);
    assert!(b.get_open_orders(1).is_empty());
    let others_after = b.get_open_orders(2);
    assert_eq!(
        others_after.iter().map(|(_, o)| o.id).collect::<Vec<_>>(),
        others_before.iter().map(|(_, o)| o.id).collect::<Vec<_>>()
    );
}

#[test]
fn open_orders_belong_to_the_user_asked_for() {
    let mut b = book();
    for (i, user) in [5u64, 6, 5, 7, 5].iter().enumerate() {
        let side = if i % 2 == 0 { OrderSide::Ask } else { OrderSide::Bid };
        let price = if i % 2 == 0 { "20" } else { "10" };
        b.add_limit_order(d(price), order(i as u64 + 1, *user, side, "1"));
    }
    let open = b.get_open_orders(5);
    assert_eq!(open.len(), 3);
    assert!(open.iter().all(|(_, o)| o.user_id == 5));
}

#[test]
fn trade_ids_follow_each_other() {
    let mut b = book();
    b.trade_id = 40;
    b.add_limit_order(d("10"), order(1, 1, OrderSide::Ask, "1"));
    b.add_limit_order(d("11"), order(2, 1, OrderSide::Ask, "1"));
    b.add_limit_order(d("12"), order(3, 1, OrderSide::Ask, "1"));
    let taker = Order::new(9, 900, OrderSide::Bid, d("3"), OrderType::Market, 2);
    let (_, _, status, fills) = b.fill_market_order(taker, true);
    assert_eq!(status, OrderStatus::Filled);
    assert_eq!(fills.iter().map(|f| f.trade_id).collect::<Vec<_>>(), vec![41, 42, 43]);
    assert_eq!(b.trade_id, 43);
}

fn normal(id: i64, side: OrderSide, price: &str, ts: i64) -> OrderRequest {
    OrderRequest::Normal(RecievedOrder {
        id,
        user_id: 1,
        symbol: "SOL_USDT".to_string(),
        price: d(price),
        initial_quantity: d("1"),
        filled_quantity: Dec::zero(),
        quote_quantity: Dec::zero(),
        filled_quote_quantity: Dec::zero(),
        order_type: OrderType::Limit,
        order_side: side,
        order_status: OrderStatus::InProgress,
        timestamp: ts,
    })
}

fn cancel(id: i64, price: &str, ts: i64) -> OrderRequest {
    OrderRequest::Cancel(ScyllaCancelOrder {
        id,
        user_id: 1,
        order_side: "Ask".to_string(),
        symbol: "SOL_USDT".to_string(),
        price: price.to_string(),
        timestamp: ts,
    })
}

#[test]
fn replay_keeps_requests_of_one_time_in_order() {
    let mut b = book();
    assert_eq!(b.replay_orders(vec![normal(1, OrderSide::Ask, "5", 7), cancel(1, "5", 7)]), Ok(()));
    assert!(b.asks[0].orders.is_empty());
    let mut c = book();
    assert!(c.replay_orders(vec![cancel(1, "5", 7), normal(1, OrderSide::Ask, "5", 7)]).is_err());
}

#[test]
fn every_channel_names_its_market() {
    for topic in ["ticker", "depth", "order_update"] {
        let names = channels(topic);
        for (name, symbol) in names.iter().zip(RegisteredSymbols::all()) {
            assert_eq!(channel_symbol(name), Ok(symbol));
        }
    }
}

#[test]
fn a_stored_cancellation_replays_as_itself() {
    let mut b = book();
    b.add_limit_order(d("10.50"), order(7, 1, OrderSide::Ask, "2"));
    b.add_limit_order(d("10.50"), order(8, 1, OrderSide::Ask, "3"));
    let row = cancel_row(7, 1, OrderSide::Ask, "SOL_USDT", d("10.50"), 99);
    assert_eq!(b.replay_orders(vec![OrderRequest::Cancel(row)]), Ok(()));
    assert_eq!(ids(&b, OrderSide::Ask), vec![vec![8]]);
}

#[test]
fn a_stored_order_reads_back_as_itself() {
    let order = match normal(3, OrderSide::Bid, "0.000000000000000000000000001", 4) {
        OrderRequest::Normal(o) => o,
        OrderRequest::Cancel(_) => unreachable!(),
    };
    let back = order.to_scylla_order().try_from_scylla_order().unwrap();
    assert_eq!(back.price.mantissa, order.price.mantissa);
    assert_eq!(back.price.scale, order.price.scale);
    assert_eq!(back.order_side, order.order_side);
    assert_eq!(back.timestamp, order.timestamp);
}

#[test]
fn stored_balances_read_back_as_themselves() {
    let texts = vec![("SOL".to_string(), "-1.50".to_string()), ("BTC".to_string(), "79228162514264337593543950335".to_string())];
    let b = Balances::from_texts(&texts).unwrap();
    let again = Balances::from_texts(&b.to_texts()).unwrap();
    assert_eq!(again.entries.len(), 2);
    for (x, y) in b.entries.iter().zip(again.entries.iter()) {
        assert_eq!(x.0, y.0);
        assert_eq!((x.1.mantissa, x.1.scale), (y.1.mantissa, y.1.scale));
    }
}

#[test]
fn replay_reports_an_overflowing_order() {
    let mut b = book();
    let max = "79228162514264337593543950335";
    b.add_limit_order(d(max), order(1, 1, OrderSide::Ask, "2"));
    let mut taker = match normal(2, OrderSide::Bid, max, 5) {
        OrderRequest::Normal(o) => o,
        OrderRequest::Cancel(_) => unreachable!(),
    };
    taker.initial_quantity = d("2");
    let before = ids(&b, OrderSide::Ask);
    assert_eq!(b.replay_orders(vec![OrderRequest::Normal(taker)]), Err(exchange::engine::matching::orderbook::ReplayError::Overflow));
    assert_eq!(ids(&b, OrderSide::Ask), before);
    assert!(b.bids.is_empty());
}
