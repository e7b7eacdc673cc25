//! The websocket server: market symbols, subscriptions and the payloads
//! that clients send.
pub mod broadcasters;
pub mod enums;
pub mod exchange;
pub mod handler;
pub mod payload;
