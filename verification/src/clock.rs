//! The wall clock, and how its reading becomes a block timestamp.

use vstd::prelude::*;

verus! {

/// The reading of the machine's clock: `chrono::Utc::now()`, taken as whole
/// seconds since the Unix epoch by `DateTime::timestamp`.
///
/// Nothing is claimed of the value, which differs from call to call.
/// chrono stops the program where the clock reads before the epoch.
#[verifier::external_body]
pub(crate) fn unix_seconds_now() -> (seconds: i64) {
    chrono::Utc::now().timestamp()
}

/// The block timestamp for a clock reading of `seconds`: the reading
/// itself, or, for a reading before the epoch, the reading taken modulo
/// 2^64.
pub open spec fn timestamp_of(seconds: i64) -> u64 {
    if seconds >= 0 {
        seconds as u64
    } else {
        (seconds + 0x1_0000_0000_0000_0000) as u64
    }
}

/// Turns a clock reading into a block timestamp.
pub fn timestamp_from_seconds(seconds: i64) -> (stamp: u64)
    ensures
        stamp == timestamp_of(seconds),
{
    if seconds >= 0 {
        seconds as u64
    } else {
        let below: u64 = (-(seconds + 1)) as u64;
        u64::MAX - below
    }
}

} // verus!
