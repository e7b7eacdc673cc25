//! The bodies of the requests that the backend queues for the engine.
use crate::decimal::Dec;
use crate::engine::matching::{Asset, OrderSide, OrderType, RecievedOrder};
use vstd::prelude::*;

verus! {

/// The queue that the engine of the market `symbol` reads requests from.
pub open spec fn queue_of(symbol: Seq<char>) -> Seq<char> {
    seq!['q', 'u', 'e', 'u', 'e', 's', ':'] + symbol
}

/// The name of the queue of the market `symbol`: `queues:SYMBOL`.
pub fn queue_key(symbol: &str) -> (r: String)
    ensures
        r@ == queue_of(symbol@),
{
    let key = String::from_str("queues:").concat(symbol);
    proof {
        reveal_strlit("queues:");
        assert(key@ =~= queue_of(symbol@));
    }
    key
}

/// The user a token belongs to.
pub struct UserId {
    pub user_id: i64,
}

/// A request to cancel all of a user's orders in a market.
pub struct CancelAll {
    pub user_id: i64,
    pub symbol: String,
    pub sub_id: i64,
    pub timestamp: i64,
}

/// A request for a user's open orders in a market.
pub struct OpenOrders {
    pub user_id: i64,
    pub symbol: String,
    pub sub_id: i64,
}

/// A request for one open order.
pub struct OpenOrder {
    pub user_id: i64,
    pub order_id: i64,
    pub symbol: String,
    pub sub_id: i64,
}

/// An order as a client places it.
pub struct OrderParams {
    pub price: Dec,
    pub order_side: OrderSide,
    pub order_type: OrderType,
    pub quantity: Dec,
    pub user_id: i64,
    pub symbol: String,
}

/// A request to cancel one order.
pub struct CancelOrder {
    pub id: i64,
    pub user_id: i64,
    pub symbol: String,
    pub price: Dec,
    pub order_side: OrderSide,
    pub sub_id: i64,
    pub timestamp: i64,
}

/// A request that the engine of a market serves.
pub enum EngineRequests {
    ExecuteOrder(RecievedOrder),
    CancelOrder(CancelOrder),
    CancelAll(CancelAll),
    OpenOrders(OpenOrders),
    OpenOrder(OpenOrder),
}

/// A request to add to a user's balance.
pub struct Deposit {
    pub user_id: i64,
    pub asset: Asset,
    pub quantity: Dec,
    pub sub_id: i64,
}

/// A request to take from a user's balance.
pub struct Withdraw {
    pub user_id: i64,
    pub asset: Asset,
    pub quantity: Dec,
    pub sub_id: i64,
}

/// A request about users.
pub enum UserRequests {
    NewUser(NewUser),
    Deposit(Deposit),
    Withdraw(Withdraw),
    GetUserBalances(GetUserBalances),
}

/// A request to open a user.
pub struct NewUser {
    pub sub_id: i64,
}

/// A request for a user's balances.
pub struct GetUserBalances {
    pub user_id: i64,
    pub sub_id: i64,
}

} // verus!
