//! The enumerations that the websocket server reads from clients and queues.
pub mod asset;
pub mod order_status;
pub mod registered_symbols;
