//! Reading the system clock, and turning the time since the Unix epoch into
//! milliseconds or microseconds.
use std::time::{Duration, SystemTime, UNIX_EPOCH};
use vstd::prelude::*;

verus! {

/// Makes `std::time::SystemTime` known to Verus, as an opaque value that
/// the clock functions below pass along.
#[verifier::external_type_specification]
#[verifier::external_body]
pub struct ExSystemTime(SystemTime);

/// Calls `std::time::SystemTime::now`.  Nothing is claimed of the time it
/// reads.
#[verifier::external_body]
fn system_now() -> SystemTime {
    SystemTime::now()
}

/// Calls `SystemTime::duration_since` with `UNIX_EPOCH`: the time elapsed
/// since 1970-01-01, or `None` when `t` lies before it (the call's `Err`).
/// Nothing is claimed of the duration.
#[verifier::external_body]
fn since_unix_epoch(t: &SystemTime) -> Option<Duration> {
    t.duration_since(UNIX_EPOCH).ok()
}

/// Calls `Duration::as_secs`: the whole seconds of `d`.  Nothing is claimed
/// of the value.
#[verifier::external_body]
fn whole_seconds(d: &Duration) -> u64 {
    d.as_secs()
}

/// Calls `Duration::subsec_nanos`: the part of `d` below a second, in
/// nanoseconds, which the documentation says is always below one billion.
#[verifier::external_body]
fn fraction_nanos(d: &Duration) -> (n: u32)
    ensures
        n < 1_000_000_000,
{
    d.subsec_nanos()
}

/// The whole milliseconds in `secs` seconds and `nanos` nanoseconds, cut to
/// 64 bits.
pub open spec fn millis_value(secs: u64, nanos: u32) -> u64 {
    (secs * 1000 + nanos / 1_000_000) as u64
}

/// The whole microseconds in `secs` seconds and `nanos` nanoseconds.
pub open spec fn micros_value(secs: u64, nanos: u32) -> int {
    secs * 1_000_000 + nanos / 1000
}

/// The whole milliseconds in `secs` seconds and `nanos` nanoseconds (what
/// `Duration::as_millis` gives), cut to 64 bits as `as u64` does.
pub fn millis_of(secs: u64, nanos: u32) -> (ms: u64)
    requires
        nanos < 1_000_000_000,
    ensures
        ms == millis_value(secs, nanos),
{
    let total: u128 = secs as u128 * 1000 + (nanos / 1_000_000) as u128;
    total as u64
}

/// The whole microseconds in `secs` seconds and `nanos` nanoseconds (what
/// `Duration::as_micros` gives).
pub fn micros_of(secs: u64, nanos: u32) -> (us: u128)
    requires
        nanos < 1_000_000_000,
    ensures
        us == micros_value(secs, nanos),
{
    secs as u128 * 1_000_000 + (nanos / 1000) as u128
}

/// The current time since the Unix epoch, as whole seconds and the
/// nanoseconds beyond them; `None` when the clock reads a time before 1970.
pub fn since_epoch() -> (r: Option<(u64, u32)>)
    ensures
        r matches Some((_, nanos)) ==> nanos < 1_000_000_000,
{
    let now = system_now();
    match since_unix_epoch(&now) {
        Some(d) => Some((whole_seconds(&d), fraction_nanos(&d))),
        None => None,
    }
}

} // verus!
