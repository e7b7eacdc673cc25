use exchange::archiever::state::asset::Asset;
use exchange::archiever::state::scylla_state::ScyllaUser;
use exchange::archiever::state::trade::Trade;
use exchange::archiever::state::user::UserError;
use exchange::decimal::Dec;
use exchange::engine::matching::limit::Limit;
use exchange::engine::matching::orderbook::{Order, Orderbook};
use exchange::engine::matching::{Asset as EngineAsset, Exchange, OrderSide, OrderType};
use exchange::text::{same_text, split};

fn d(s: &str) -> Dec {
    Dec::from_str(s).expect("a decimal")
}

fn row(balance: &[(&str, &str)], locked: &[(&str, &str)]) -> ScyllaUser {
    let texts = |l: &[(&str, &str)]| l.iter().map(|(a, b)| (a.to_string(), b.to_string())).collect::<Vec<_>>();
    ScyllaUser { id: 1, balance: texts(balance), locked_balance: texts(locked) }
}

fn volume(quantities: &[&str]) -> Option<String> {
    let mut level = Limit::new(d("1"));
    for (i, q) in quantities.iter().enumerate() {
        level.add_order(Order::new(i as u64, 0, OrderSide::Ask, d(q), OrderType::Limit, 1));
    }
    level.try_total_volume().map(|v| v.to_string())
}

#[test]
fn parse_and_print_round_trip() {
    let x = d("12.50");
    assert_eq!(x.mantissa, 1250);
    assert_eq!(x.scale, 2);
    assert_eq!(x.to_string(), "12.50");
    assert_eq!(d("-0.5").to_string(), "-0.5");
    assert!(Dec::from_str("not a number").is_none());
}

#[test]
fn arithmetic_goes_through_rust_decimal() {
    let max = "79228162514264337593543950335";
    assert_eq!(volume(&["1.5", "2.25"]), Some("3.75".to_string()));
    assert_eq!(volume(&[max, max]), None);
    let mut u = row(&[], &[("SOL", "5")]).from_scylla_user();
    u.unlock_amount(&Asset::SOL, d("7.5"));
    assert_eq!(u.locked_balance.get(&Asset::SOL).unwrap().to_string(), "-2.5");
    let t = Trade::try_new(1, false, d("3"), d("0.5"), "SOL_USDT".to_string(), 0).unwrap();
    assert_eq!(t.quote_quantity.to_string(), "1.5");
    assert!(Trade::try_new(1, false, d(max), d("2"), "SOL_USDT".to_string(), 0).is_none());
}

#[test]
fn comparison_is_by_value() {
    let mut u = row(&[("USDT", "1")], &[]).from_scylla_user();
    assert!(u.withdraw(&Asset::USDT, d("1.000")).is_ok());
    let mut v = row(&[("USDT", "0.99")], &[]).from_scylla_user();
    assert!(matches!(v.withdraw(&Asset::USDT, d("1")), Err(UserError::OverWithdrawl)));
    let mut b = Orderbook::new(Exchange::new(EngineAsset::SOL, EngineAsset::USDT));
    b.add_limit_order(d("1.0"), Order::new(1, 0, OrderSide::Bid, d("1"), OrderType::Limit, 1));
    b.add_limit_order(d("1.00"), Order::new(2, 0, OrderSide::Bid, d("1"), OrderType::Limit, 1));
    b.add_limit_order(d("1.01"), Order::new(3, 0, OrderSide::Bid, d("1"), OrderType::Limit, 1));
    assert_eq!(b.bids.len(), 2);
    assert_eq!(b.bids[1].orders.len(), 2);
    assert!(d("0.000").is_zero());
    assert!(d("0.001").is_positive());
    assert!(!d("-3").is_positive());
    assert!(Dec::zero().is_zero());
}

#[test]
fn split_matches_str_split() {
    let cases = ["SOL_USDT", "", "_", "a__b", "BTC_USDT_X", "plain"];
    for c in cases {
        let ours = split(c, '_');
        let theirs: Vec<String> = c.split('_').map(|s| s.to_string()).collect();
        assert_eq!(ours, theirs);
    }
}

#[test]
fn same_text_compares_characters() {
    assert!(same_text("SOL", "SOL"));
    assert!(!same_text("SOL", "SOL "));
    assert!(same_text("", ""));
}
