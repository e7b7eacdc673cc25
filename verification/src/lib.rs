//! Verified core of a spot exchange: decimal amounts, symbol parsing,
//! price-time priority order books and the matching engine, together with
//! the record types that the exchange's services hand to one another.
pub mod decimal;
pub mod text;
pub mod engine;
pub mod clock;
pub mod archiever;
pub mod backend;
pub mod loadtesting;
pub mod wss;
