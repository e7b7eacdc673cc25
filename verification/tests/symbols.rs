use exchange::archiever::state::asset::Asset as ArchieverAsset;
use exchange::archiever::state::exchange::Exchange as ArchieverExchange;
use exchange::archiever::state::order::{OrderSide as ArchieverSide, OrderStatus as ArchieverStatus, OrderType as ArchieverType};
use exchange::engine::matching::{Asset, Exchange, OrderSide, OrderStatus, OrderType, RegisteredSymbols, SymbolError};
use exchange::loadtesting::state::{Asset as LoadAsset, OrderSide as LoadSide, OrderStatus as LoadStatus, OrderType as LoadType};
use exchange::wss::enums::asset::Asset as WssAsset;
use exchange::wss::enums::order_status::OrderStatus as WssStatus;
use exchange::wss::enums::registered_symbols::RegisteredSymbols as WssSymbols;
use exchange::wss::exchange::{Exchange as WssExchange, SymbolError as WssSymbolError};

#[test]
fn engine_enums_parse_their_names() {
    for a in Asset::all() {
        assert_eq!(Asset::from_str(&a.to_string()), Some(a));
    }
    assert_eq!(Asset::from_str("usdt"), None);
    assert_eq!(Asset::from_str("SOL"), Some(Asset::SOL));
    assert_eq!(OrderType::from_str("Market"), Ok(OrderType::Market));
    assert_eq!(OrderType::from_str("Stop"), Err(()));
    assert_eq!(OrderSide::from_str("Ask"), Ok(OrderSide::Ask));
    assert_eq!(OrderSide::from_str("Sell"), Err(()));
    assert_eq!(OrderStatus::from_str("PartiallyFilled"), Ok(OrderStatus::PartiallyFilled));
    assert_eq!(OrderStatus::from_str(""), Err(()));
    let names: Vec<String> = RegisteredSymbols::all().iter().map(|s| s.to_string()).collect();
    assert_eq!(names, vec!["SOL_USDT", "BTC_USDT", "ETH_USDT"]);
}

#[test]
fn other_services_enums_parse_their_names() {
    assert_eq!(ArchieverAsset::from_str("ETH"), Ok(ArchieverAsset::ETH));
    assert_eq!(ArchieverAsset::from_str("DOGE"), Err(()));
    assert_eq!(ArchieverSide::from_str("Bid"), Ok(ArchieverSide::Bid));
    assert_eq!(ArchieverStatus::from_str("Cancelled"), Ok(ArchieverStatus::Cancelled));
    assert_eq!(ArchieverType::from_str("Limit"), Ok(ArchieverType::Limit));
    assert_eq!(LoadAsset::from_str("BTC"), Some(LoadAsset::BTC));
    assert_eq!(LoadAsset::from_str("btc"), None);
    assert_eq!(LoadSide::from_str("Ask"), Ok(LoadSide::Ask));
    assert_eq!(LoadStatus::from_str("Filled"), Ok(LoadStatus::Filled));
    assert_eq!(LoadType::from_str("Market"), Ok(LoadType::Market));
    assert_eq!(WssAsset::from_str("USDT"), Some(WssAsset::USDT));
    assert_eq!(WssStatus::from_str("InProgress"), Ok(WssStatus::InProgress));
    assert_eq!(WssSymbols::from_str("ETH_USDT"), Ok(WssSymbols::ETH_USDT));
    assert_eq!(WssSymbols::from_str("ETHUSDT"), Err(()));
}

#[test]
fn exchange_symbol_round_trip() {
    for b in Asset::all() {
        for q in Asset::all() {
            let e = Exchange::new(b, q);
            assert_eq!(e.symbol, format!("{}_{}", b.to_string(), q.to_string()));
            let back = Exchange::from_str(&e.symbol).unwrap();
            assert_eq!((back.base, back.quote), (b, q));
            assert_eq!(back.symbol, e.symbol);
        }
    }
}

#[test]
fn exchange_from_str_refuses_bad_symbols() {
    assert_eq!(Exchange::from_str("SOLUSDT").unwrap_err(), SymbolError::InvalidSymbol);
    assert_eq!(Exchange::from_str("SOL_USDT_BTC").unwrap_err(), SymbolError::InvalidSymbol);
    assert_eq!(Exchange::from_str("SOL_XRP").unwrap_err(), SymbolError::InvalidSymbol);
    assert_eq!(Exchange::from_str("").unwrap_err(), SymbolError::InvalidSymbol);
}

#[test]
fn from_symbol_reads_the_first_two_pieces() {
    let e = WssExchange::from_symbol("BTC_USDT".to_string()).unwrap();
    assert_eq!((e.base, e.quote), (WssAsset::BTC, WssAsset::USDT));
    let e = WssExchange::from_symbol("BTC_USDT_EXTRA".to_string()).unwrap();
    assert_eq!(e.symbol, "BTC_USDT");
    assert_eq!(WssExchange::from_symbol("BTC".to_string()).unwrap_err(), WssSymbolError::InvalidSymbol);
    assert_eq!(WssExchange::from_symbol("BTC_EUR".to_string()).unwrap_err(), WssSymbolError::InvalidSymbol);
    let a = ArchieverExchange::from_symbol("ETH_USDT".to_string());
    assert_eq!((a.base, a.quote), (ArchieverAsset::ETH, ArchieverAsset::USDT));
    assert_eq!(a.symbol, "ETH_USDT");
    let n = ArchieverExchange::new(ArchieverAsset::SOL, ArchieverAsset::BTC);
    assert_eq!(n.symbol, "SOL_BTC");
}
