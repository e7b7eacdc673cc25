//! The event that the engine queues for the archiver after a trade.
use crate::archiever::state::exchange::Exchange;
use crate::archiever::state::order::OrderStatus;
use crate::archiever::state::user::PostUsers;
use crate::decimal::Dec;
use vstd::prelude::*;

verus! {

/// A trade between an order and a client order, with the two users as
/// they stand after it.
pub struct RedisEvent {
    pub trade_id: i64,
    pub order_id: i64,
    pub client_order_id: i64,
    pub is_buyer_maker: bool,
    pub exchange_price: Dec,
    pub post_users: PostUsers,
    pub order_status: OrderStatus,
    pub client_order_status: OrderStatus,
    pub quantity: Dec,
    pub timestamp: u128,
    pub exchange: Exchange,
}

} // verus!
