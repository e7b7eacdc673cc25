use exchange::archiever::state::asset::Asset;
use exchange::archiever::state::exchange::Exchange;
use exchange::archiever::state::get_epoch_ms;
use exchange::archiever::state::order::{Order, OrderSide, OrderStatus, OrderType};
use exchange::archiever::state::scylla_state::{ScyllaOrder, ScyllaTrade, ScyllaUser};
use exchange::archiever::state::trade::Trade;
use exchange::archiever::state::user::{Balances, User, UserError};
use exchange::decimal::Dec;

fn d(s: &str) -> Dec {
    Dec::from_str(s).expect("a decimal")
}

fn text(x: Dec) -> String {
    x.to_string()
}

fn entries(list: &[(&str, &str)]) -> Vec<(String, String)> {
    list.iter().map(|(a, b)| (a.to_string(), b.to_string())).collect()
}

fn row(id: i64, balance: &[(&str, &str)], locked: &[(&str, &str)]) -> ScyllaUser {
    ScyllaUser { id, balance: entries(balance), locked_balance: entries(locked) }
}

fn user_with(balance: &[(&str, &str)], locked: &[(&str, &str)]) -> User {
    row(7, balance, locked).try_from_scylla_user().expect("a user")
}

#[test]
fn archiver_exchange_symbols() {
    let e = Exchange::new(Asset::BTC, Asset::USDT);
    assert_eq!(e.symbol, "BTC_USDT");
    let f = Exchange::from_symbol("ETH_USDT".to_string());
    assert_eq!(f.base, Asset::ETH);
    assert_eq!(f.quote, Asset::USDT);
    assert_eq!(f.symbol, "ETH_USDT");
    let g = Exchange::from_symbol("SOL_BTC_extra".to_string());
    assert_eq!(g.symbol, "SOL_BTC");
}

#[test]
fn archiver_enums_parse_their_names() {
    assert_eq!(Asset::from_str("SOL"), Ok(Asset::SOL));
    assert_eq!(Asset::from_str("sol"), Err(()));
    assert_eq!(OrderStatus::from_str("Filled"), Ok(OrderStatus::Filled));
    assert_eq!(OrderSide::from_str("Ask"), Ok(OrderSide::Ask));
    assert_eq!(OrderType::from_str("Market"), Ok(OrderType::Market));
    assert_eq!(OrderType::from_str("Stop"), Err(()));
    assert_eq!(OrderStatus::PartiallyFilled.to_string(), "PartiallyFilled");
}

#[test]
fn balances_read_and_print_entries() {
    let b = Balances::from_texts(&entries(&[("USDT", "100.5"), ("SOL", "2"), ("USDT", "7")])).unwrap();
    assert_eq!(b.entries.len(), 2);
    assert_eq!(text(b.get(&Asset::USDT).unwrap()), "7");
    assert_eq!(text(b.get(&Asset::SOL).unwrap()), "2");
    assert!(b.get(&Asset::BTC).is_none());
    let texts = b.to_texts();
    assert_eq!(texts, entries(&[("USDT", "7"), ("SOL", "2")]));
    assert!(Balances::from_texts(&entries(&[("DOGE", "1")])).is_none());
    assert!(Balances::from_texts(&entries(&[("SOL", "lots")])).is_none());
}

#[test]
fn deposit_adds_or_opens_a_balance() {
    let mut u = user_with(&[("USDT", "10")], &[]);
    u.deposit(&Asset::USDT, d("5.5"));
    u.deposit(&Asset::SOL, d("3"));
    assert_eq!(text(u.balance.get(&Asset::USDT).unwrap()), "15.5");
    assert_eq!(text(u.balance.get(&Asset::SOL).unwrap()), "3");
    assert_eq!(u.id, 7);
    assert!(u.locked_balance.entries.is_empty());
}

#[test]
fn withdraw_refuses_missing_assets_and_overdrafts() {
    let mut u = user_with(&[("USDT", "10")], &[]);
    assert!(matches!(u.withdraw(&Asset::SOL, d("1")), Err(UserError::AssetNotFound)));
    assert!(matches!(u.withdraw(&Asset::USDT, d("10.01")), Err(UserError::OverWithdrawl)));
    assert_eq!(text(u.balance.get(&Asset::USDT).unwrap()), "10");
    assert!(u.withdraw(&Asset::USDT, d("10")).is_ok());
    assert!(u.balance.get(&Asset::USDT).unwrap().is_zero());
}

#[test]
fn unlock_amount_lowers_the_locked_balance() {
    let mut u = user_with(&[], &[("SOL", "4")]);
    u.unlock_amount(&Asset::SOL, d("1.5"));
    assert_eq!(text(u.locked_balance.get(&Asset::SOL).unwrap()), "2.5");
    assert!(!u.try_unlock_amount(&Asset::ETH, d("1")));
}

#[test]
fn users_from_bad_rows_are_refused() {
    assert!(row(1, &[("USDT", "x")], &[]).try_from_scylla_user().is_none());
    assert!(row(1, &[], &[("XRP", "1")]).try_from_scylla_user().is_none());
}

#[test]
fn user_rows_round_trip() {
    let u = row(5, &[("USDT", "12.50"), ("ETH", "0.001")], &[("USDT", "2")]).from_scylla_user();
    let stored = u.to_scylla_user();
    assert_eq!(stored.id, 5);
    assert_eq!(stored.balance, entries(&[("USDT", "12.50"), ("ETH", "0.001")]));
    assert_eq!(stored.locked_balance, entries(&[("USDT", "2")]));
    let back = stored.from_scylla_user();
    assert_eq!(text(back.balance.get(&Asset::ETH).unwrap()), "0.001");
}

#[test]
fn trades_are_worth_price_times_quantity() {
    let t = Trade::new(3, true, d("2.5"), d("4"), "SOL_USDT".to_string(), 1_700_000_000_000_000);
    assert_eq!(text(t.quote_quantity), "10.0");
    assert_eq!(t.timestamp, 1_700_000_000_000_000);
    let row = t.to_scylla_trade();
    assert_eq!(row.price, "2.5");
    assert_eq!(row.quote_quantity, "10.0");
    assert!(row.is_buyer_maker);
    let back = row.from_scylla_trade();
    assert_eq!(text(back.quote_quantity), "10.0");
    let huge = d("79228162514264337593543950335");
    assert!(Trade::try_new(1, false, huge, d("2"), "SOL_USDT".to_string(), 0).is_none());
}

#[test]
fn trade_rows_that_do_not_parse_are_refused() {
    let row = ScyllaTrade {
        id: 1,
        symbol: "SOL_USDT".to_string(),
        quantity: "1".to_string(),
        quote_quantity: "ten".to_string(),
        is_buyer_maker: false,
        price: "10".to_string(),
        timestamp: 5,
    };
    assert!(row.try_from_scylla_trade().is_none());
}

#[test]
fn archiver_order_rows_round_trip() {
    let order = Order {
        id: 9,
        user_id: 2,
        symbol: "BTC_USDT".to_string(),
        price: d("30000"),
        initial_quantity: d("0.5"),
        filled_quantity: d("0.25"),
        quote_quantity: d("15000"),
        filled_quote_quantity: d("7500"),
        order_type: OrderType::Limit,
        order_side: OrderSide::Ask,
        order_status: OrderStatus::PartiallyFilled,
        timestamp: 12,
    };
    let row: ScyllaOrder = order.to_scylla_order();
    assert_eq!(row.initial_quantity, "0.5");
    assert_eq!(row.order_side, "Ask");
    assert_eq!(row.order_status, "PartiallyFilled");
    let back = row.from_scylla_order();
    assert_eq!(back.id, 9);
    assert_eq!(text(back.filled_quote_quantity), "7500");
    assert_eq!(back.order_type, OrderType::Limit);
    let mut bad = order.to_scylla_order();
    bad.order_type = "Iceberg".to_string();
    assert!(bad.try_from_scylla_order().is_none());
}

#[test]
fn archiver_clock_reads_after_1970() {
    assert!(get_epoch_ms().expect("a time after 1970") > 1_600_000_000_000);
}
