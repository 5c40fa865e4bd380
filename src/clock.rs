//! The wall clock.
use vstd::prelude::*;

verus! {

/// Whole seconds since the Unix epoch, read through
/// `std::time::SystemTime::now` and `SystemTime::duration_since(UNIX_EPOCH)`;
/// `None` when the clock reads before the epoch. Nothing is promised of the
/// value: it is the time.
#[verifier::external_body]
fn unix_seconds() -> Option<u64> {
    match std::time::SystemTime::now().duration_since(std::time::UNIX_EPOCH) {
        Ok(d) => Some(d.as_secs()),
        Err(_) => None,
    }
}

/// A clock reading in whole seconds since the Unix epoch as an `i64`:
/// saturated at `i64::MAX`, and 0 for a clock that reads before the epoch
/// (`None`).
pub open spec fn timestamp_of(secs: Option<u64>) -> i64 {
    match secs {
        Some(s) => if s > i64::MAX as u64 {
            i64::MAX
        } else {
            s as i64
        },
        None => 0,
    }
}

/// Converts a clock reading as `timestamp_of` says.
pub fn timestamp_from_secs(secs: Option<u64>) -> (r: i64)
    ensures
        r == timestamp_of(secs),
        r >= 0,
{
    match secs {
        Some(s) => if s > i64::MAX as u64 {
            i64::MAX
        } else {
            s as i64
        },
        None => 0,
    }
}

/// The current time in whole seconds since the Unix epoch, saturated to the
/// range of `i64`; 0 when the clock reads before the epoch.
pub fn current_timestamp() -> (r: i64)
    ensures
        r >= 0,
{
    let secs = unix_seconds();
    timestamp_from_secs(secs)
}

} // verus!
