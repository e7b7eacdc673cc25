//! What the server does with a client's request.
use crate::wss::enums::registered_symbols::RegisteredSymbols;
use crate::wss::payload::{Event, Method, Payload};
use vstd::prelude::*;

verus! {

/// The change to a client's subscriptions that a request asks for.
#[derive(Clone, Copy, Debug, PartialEq, Eq, Structural)]
pub enum Subscription {
    SubscribeTrade(RegisteredSymbols),
    UnsubscribeTrades(RegisteredSymbols),
    SubscribeTicker(RegisteredSymbols),
    UnsubscribeTicker(RegisteredSymbols),
    SubscribeDepth(RegisteredSymbols),
    UnsubscribeDepth(RegisteredSymbols),
    AssignUserId(Option<u64>),
    DissociateUserId,
}

/// The change that `payload` asks for: for the trade, ticker and depth
/// streams, to follow or stop following that stream of the payload's
/// market; for order updates, to tie the client to the payload's user id or
/// to untie it.
pub open spec fn subscription_for(payload: Payload) -> Subscription {
    match (payload.event, payload.method) {
        (Event::TRADE, Method::SUBSCRIBE) => Subscription::SubscribeTrade(payload.symbol),
        (Event::TRADE, Method::UNSUBSCRIBE) => Subscription::UnsubscribeTrades(payload.symbol),
        (Event::TICKER, Method::SUBSCRIBE) => Subscription::SubscribeTicker(payload.symbol),
        (Event::TICKER, Method::UNSUBSCRIBE) => Subscription::UnsubscribeTicker(payload.symbol),
        (Event::DEPTH, Method::SUBSCRIBE) => Subscription::SubscribeDepth(payload.symbol),
        (Event::DEPTH, Method::UNSUBSCRIBE) => Subscription::UnsubscribeDepth(payload.symbol),
        (Event::ORDER_UPDATE, Method::SUBSCRIBE) => Subscription::AssignUserId(payload.user_id),
        (Event::ORDER_UPDATE, Method::UNSUBSCRIBE) => Subscription::DissociateUserId,
    }
}

/// The change to the sending client's subscriptions that `payload` asks
/// for (see `subscription_for`).
pub fn handle_payload(payload: &Payload) -> (r: Subscription)
    ensures
        r == subscription_for(*payload),
{
    match payload.event {
        Event::TRADE => match payload.method {
            Method::SUBSCRIBE => Subscription::SubscribeTrade(payload.symbol),
            Method::UNSUBSCRIBE => Subscription::UnsubscribeTrades(payload.symbol),
        },
        Event::TICKER => match payload.method {
            Method::SUBSCRIBE => Subscription::SubscribeTicker(payload.symbol),
            Method::UNSUBSCRIBE => Subscription::UnsubscribeTicker(payload.symbol),
        },
        Event::DEPTH => match payload.method {
            Method::SUBSCRIBE => Subscription::SubscribeDepth(payload.symbol),
            Method::UNSUBSCRIBE => Subscription::UnsubscribeDepth(payload.symbol),
        },
        Event::ORDER_UPDATE => match payload.method {
            Method::SUBSCRIBE => Subscription::AssignUserId(payload.user_id),
            Method::UNSUBSCRIBE => Subscription::DissociateUserId,
        },
    }
}

} // verus!
