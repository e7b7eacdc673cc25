//! The archiver's records: assets, markets, orders, trades and users.
use crate::clock::{millis_of, since_epoch};
use vstd::prelude::*;

pub mod asset;
pub mod exchange;
pub mod order;
pub mod redis_event;
pub mod scylla_state;
pub mod trade;
pub mod user;

verus! {

/// The milliseconds since the Unix epoch, cut to 64 bits (`millis_of` of
/// the clock's reading); `None` when the clock reads a time before 1970.
pub fn get_epoch_ms() -> Option<u64> {
    match since_epoch() {
        Some((secs, nanos)) => Some(millis_of(secs, nanos)),
        None => None,
    }
}

} // verus!
