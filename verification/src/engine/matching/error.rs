//! Errors of the matching engine.
use vstd::prelude::*;

verus! {

/// Why the engine refused a request.
#[derive(Clone, Copy, Debug, PartialEq, Eq, Structural)]
pub enum MatchingEngineErrors {
    ExchangeAlreadyExist,
    AskedMoreThanTradeable,
    UserNotFound,
    OverWithdrawl,
    InsufficientBalance,
    InvalidOrderId,
    InvalidPriceLimitOrOrderSide,
}

} // verus!
