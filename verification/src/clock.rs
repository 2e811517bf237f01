//! The time of day, read from the clock of the machine.
use std::time::{Duration, UNIX_EPOCH};
use vstd::prelude::*;

verus! {

/// Calls `SystemTime::elapsed` on `UNIX_EPOCH`: the time that has passed
/// since the Unix epoch, `None` where the clock stands before it. Nothing
/// is claimed of the result, which is different from call to call.
#[verifier::external_body]
fn since_epoch() -> (elapsed: Option<Duration>) {
    match UNIX_EPOCH.elapsed() {
        Ok(elapsed) => Some(elapsed),
        Err(_) => None,
    }
}

/// Calls `Duration::as_millis`. Nothing is claimed of the result.
#[verifier::external_body]
fn millis_of(duration: &Duration) -> (millis: u128) {
    duration.as_millis()
}

/// The time in milliseconds since the Unix epoch, as `timestamp_of` makes it
/// of what the clock shows.
pub fn current_timestamp() -> u64 {
    let elapsed = match since_epoch() {
        Some(elapsed) => Some(millis_of(&elapsed)),
        None => None,
    };
    timestamp_of(elapsed)
}

/// The timestamp that stands for a time given in milliseconds since the
/// Unix epoch: the number itself, `u64::MAX` where it does not fit, and 0
/// for a time before the epoch, which comes as `None`.
pub open spec fn timestamp(elapsed: Option<u128>) -> u64 {
    match elapsed {
        Some(millis) => if millis > u64::MAX {
            u64::MAX
        } else {
            millis as u64
        },
        None => 0,
    }
}

/// Makes a timestamp of the milliseconds that have passed since the Unix epoch.
pub fn timestamp_of(elapsed: Option<u128>) -> (at: u64)
    ensures
        at == timestamp(elapsed),
{
    match elapsed {
        Some(millis) => {
            if millis > u64::MAX as u128 {
                u64::MAX
            } else {
                millis as u64
            }
        },
        None => 0,
    }
}

} // verus!
