//! Time stamps of the backend.
use crate::clock::{micros_of, since_epoch};
use vstd::prelude::*;

verus! {

/// The microseconds since the Unix epoch (`micros_of` of the clock's
/// reading, so never more than the microseconds in `u64::MAX` seconds);
/// `None` when the clock reads a time before 1970.
pub fn get_epoch_micros() -> (r: Option<u128>)
    ensures
        r matches Some(us) ==> us <= 18_446_744_073_709_551_615 * 1_000_000 + 999_999,
{
    match since_epoch() {
        Some((secs, nanos)) => Some(micros_of(secs, nanos)),
        None => None,
    }
}

/// The id of the next user, given how many users are stored: users are
/// numbered from one on.
pub fn new_user_id(user_count: i64) -> (id: i64)
    requires
        user_count < i64::MAX,
    ensures
        id == user_count + 1,
{
    user_count + 1
}

} // verus!
