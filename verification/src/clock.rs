//! The system clock.

use vstd::prelude::*;

verus! {

/// Reads the clock with `nostr_types::Unixtime::now`: the seconds since the
/// Unix epoch, or nothing where the clock stands before the epoch. Nothing
/// is claimed of the number.
#[verifier::external_body]
pub(crate) fn unixtime_now() -> (r: Option<i64>) {
    match nostr_types::Unixtime::now() {
        Ok(now) => Some(now.0),
        Err(_) => None,
    }
}

/// The seconds that a reading of the clock stands for: the reading itself,
/// or 0 where the clock gave none.
pub fn seconds_of(reading: Option<i64>) -> (seconds: i64)
    ensures
        seconds == match reading {
            Some(now) => now,
            None => 0,
        },
{
    match reading {
        Some(now) => now,
        None => 0,
    }
}

} // verus!
