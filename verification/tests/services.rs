use exchange::backend::db::{get_epoch_micros, new_user_id};
use exchange::backend::middleware::{bearer_token, token_expiration, TOKEN_LIFETIME_SECS};
use exchange::backend::routes::queue_key;
use exchange::wss::broadcasters::{channel_symbol, channels};
use exchange::wss::enums::registered_symbols::RegisteredSymbols;
use exchange::wss::handler::{handle_payload, Subscription};
use exchange::wss::payload::{Event, Method, Payload};

fn payload(event: Event, method: Method) -> Payload {
    Payload { user_id: Some(12), method, event, symbol: RegisteredSymbols::BTC_USDT }
}

#[test]
fn payloads_choose_the_subscription_change() {
    let btc = RegisteredSymbols::BTC_USDT;
    assert_eq!(handle_payload(&payload(Event::TRADE, Method::SUBSCRIBE)), Subscription::SubscribeTrade(btc));
    assert_eq!(handle_payload(&payload(Event::TRADE, Method::UNSUBSCRIBE)), Subscription::UnsubscribeTrades(btc));
    assert_eq!(handle_payload(&payload(Event::TICKER, Method::SUBSCRIBE)), Subscription::SubscribeTicker(btc));
    assert_eq!(handle_payload(&payload(Event::TICKER, Method::UNSUBSCRIBE)), Subscription::UnsubscribeTicker(btc));
    assert_eq!(handle_payload(&payload(Event::DEPTH, Method::SUBSCRIBE)), Subscription::SubscribeDepth(btc));
    assert_eq!(handle_payload(&payload(Event::DEPTH, Method::UNSUBSCRIBE)), Subscription::UnsubscribeDepth(btc));
    assert_eq!(handle_payload(&payload(Event::ORDER_UPDATE, Method::SUBSCRIBE)), Subscription::AssignUserId(Some(12)));
    assert_eq!(handle_payload(&payload(Event::ORDER_UPDATE, Method::UNSUBSCRIBE)), Subscription::DissociateUserId);
}

#[test]
fn broadcasters_listen_on_one_channel_per_market() {
    assert_eq!(channels("ticker"), vec!["ticker:SOL_USDT", "ticker:BTC_USDT", "ticker:ETH_USDT"]);
    assert_eq!(channels("order_update")[2], "order_update:ETH_USDT");
}

#[test]
fn channel_names_give_their_market_back() {
    assert_eq!(channel_symbol("ticker:SOL_USDT"), Ok(RegisteredSymbols::SOL_USDT));
    assert_eq!(channel_symbol("a:b:ETH_USDT"), Ok(RegisteredSymbols::ETH_USDT));
    assert_eq!(channel_symbol("BTC_USDT"), Ok(RegisteredSymbols::BTC_USDT));
    assert_eq!(channel_symbol("ticker:SOL_USDT:"), Err(()));
    assert_eq!(channel_symbol("ticker:DOGE_USDT"), Err(()));
    for c in channels("depth") {
        assert!(channel_symbol(&c).is_ok());
    }
}

#[test]
fn requests_go_to_the_market_queue() {
    assert_eq!(queue_key("SOL_USDT"), "queues:SOL_USDT");
    assert_eq!(queue_key(""), "queues:");
}

#[test]
fn tokens_expire_a_day_after_issue() {
    assert_eq!(TOKEN_LIFETIME_SECS, 86_400);
    assert_eq!(token_expiration(1_700_000_000), 1_700_086_400);
    assert_eq!(token_expiration(0), 86_400);
}

#[test]
fn backend_clock_reads_after_1970() {
    assert!(get_epoch_micros().expect("a time after 1970") > 1_600_000_000_000_000);
}

#[test]
fn users_are_numbered_from_one() {
    assert_eq!(new_user_id(0), 1);
    assert_eq!(new_user_id(41), 42);
}

#[test]
fn bearer_headers_give_their_token() {
    assert_eq!(bearer_token("Bearer abc.def"), Some("abc.def".to_string()));
    assert_eq!(bearer_token("Bearer   tok \t"), Some("tok".to_string()));
    assert_eq!(bearer_token("Bearer Bearer x"), Some("x".to_string()));
    assert_eq!(bearer_token("Bearer "), Some("".to_string()));
    assert_eq!(bearer_token("Bearer\u{3000}x"), None);
    assert_eq!(bearer_token("Bearer x\u{3000}"), Some("x".to_string()));
    assert_eq!(bearer_token("bearer x"), None);
    assert_eq!(bearer_token("Basic x"), None);
    assert_eq!(bearer_token(""), None);
    let header = "Bearer  Bearer y ";
    let expected = header.trim_start_matches("Bearer ").trim().to_string();
    assert_eq!(bearer_token(header), Some(expected));
}
