//! The wall clock.
use std::time::{Duration, SystemTime, SystemTimeError};
use vstd::prelude::*;

verus! {

/// A moment of the wall clock.
#[verifier::external_type_specification]
#[verifier::external_body]
pub struct ExSystemTime(SystemTime);

/// The report that one moment lies before another.
#[verifier::external_type_specification]
#[verifier::external_body]
pub struct ExSystemTimeError(SystemTimeError);

/// `SystemTime::now` reads the wall clock: nothing is claimed of the moment.
pub assume_specification[ SystemTime::now ]() -> SystemTime;

/// `SystemTime::duration_since` measures how far `moment` lies after the Unix
/// epoch, and fails where it lies before it. Moments are opaque, so nothing is
/// claimed.
#[verifier::external_body]
fn since_epoch(moment: &SystemTime) -> Result<Duration, SystemTimeError> {
    moment.duration_since(SystemTime::UNIX_EPOCH)
}

/// `Duration::as_nanos` counts the nanoseconds of a duration. Durations are
/// opaque, so nothing is claimed.
pub assume_specification[ Duration::as_nanos ](duration: &Duration) -> u128;

/// The nanoseconds that a clock reading gives: zero where the clock stands
/// before the epoch.
pub fn nanos_or_zero(reading: Option<u128>) -> (r: u128)
    ensures
        r == (match reading {
            Some(nanos) => nanos,
            None => 0,
        }),
{
    match reading {
        Some(nanos) => nanos,
        None => 0,
    }
}

/// The nanoseconds since the Unix epoch, or zero where the clock stands before
/// it.
pub(crate) fn epoch_nanos() -> u128 {
    let moment = SystemTime::now();
    let reading: Option<u128> = match since_epoch(&moment) {
        Ok(elapsed) => Some(elapsed.as_nanos()),
        Err(_) => None,
    };
    nanos_or_zero(reading)
}

} // verus!
