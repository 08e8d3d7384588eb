//! The wall clock, read in whole seconds.

use vstd::prelude::*;
use std::time::{Duration, SystemTime, SystemTimeError, UNIX_EPOCH};

verus! {

/// Makes `std::time::SystemTime` known as a type whose inside is not looked into.
#[verifier::external_type_specification]
#[verifier::external_body]
pub struct ExSystemTime(SystemTime);

/// Makes `std::time::SystemTimeError` known as a type whose inside is not looked into.
#[verifier::external_type_specification]
#[verifier::external_body]
pub struct ExSystemTimeError(SystemTimeError);

/// Calls `SystemTime::now`. Nothing is known of the time that comes back.
#[verifier::external_body]
fn system_now() -> SystemTime {
    SystemTime::now()
}

/// Calls `SystemTime::duration_since` with the Unix epoch. It fails for a time before
/// the epoch.
#[verifier::external_body]
fn since_epoch(t: &SystemTime) -> core::result::Result<Duration, SystemTimeError> {
    t.duration_since(UNIX_EPOCH)
}

/// Calls `Duration::as_secs`. Nothing is stated of the number.
#[verifier::external_body]
fn whole_seconds(d: &Duration) -> u64 {
    d.as_secs()
}

/// The greatest number of seconds that a timestamp can hold.
pub const MAX_TIMESTAMP: u64 = 9223372036854775807u64;

/// The timestamp for a reading of the clock: the seconds since the epoch, capped at
/// the last timestamp, or 0 for a clock that stands before the epoch.
pub open spec fn timestamp_for(reading: Option<u64>) -> int {
    match reading {
        Some(seconds) => if seconds <= MAX_TIMESTAMP {
            seconds as int
        } else {
            MAX_TIMESTAMP as int
        },
        None => 0,
    }
}

/// The timestamp for a reading of the clock.
pub fn timestamp_from(reading: Option<u64>) -> (r: i64)
    ensures
        r == timestamp_for(reading),
{
    match reading {
        Some(seconds) => if seconds <= MAX_TIMESTAMP {
            seconds as i64
        } else {
            MAX_TIMESTAMP as i64
        },
        None => 0,
    }
}

/// The current Unix timestamp. It is never negative.
pub fn unix_now() -> (r: i64)
    ensures
        r >= 0,
{
    let now = system_now();
    match since_epoch(&now) {
        Ok(d) => timestamp_from(Some(whole_seconds(&d))),
        Err(_) => timestamp_from(None),
    }
}

} // verus!
