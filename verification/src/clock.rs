//! Wall-clock time, and the parts of a `Duration`.
use vstd::prelude::*;
use std::time::{Duration, SystemTime, SystemTimeError, UNIX_EPOCH};

verus! {

#[verifier::external_type_specification]
#[verifier::external_body]
pub struct ExSystemTime(SystemTime);

#[verifier::external_type_specification]
#[verifier::external_body]
pub struct ExSystemTimeError(SystemTimeError);

/// `SystemTime::now()`: a reading of the wall clock. Nothing is claimed of it.
#[verifier::external_body]
fn system_now() -> (t: SystemTime) {
    SystemTime::now()
}

/// `t.duration_since(UNIX_EPOCH)`: how long after the Unix epoch `t` is, or an
/// error when it is before it. Which of the two comes back is not claimed.
#[verifier::external_body]
fn since_epoch(t: &SystemTime) -> (r: Result<Duration, SystemTimeError>) {
    t.duration_since(UNIX_EPOCH)
}

/// `d.as_secs()`: the whole seconds of a duration. A `Duration` is opaque
/// here, so its value is not claimed.
#[verifier::external_body]
pub(crate) fn duration_secs(d: &Duration) -> (s: u64) {
    d.as_secs()
}

/// `d.as_nanos()`: the whole nanoseconds of a duration. A `Duration` is opaque
/// here, so its value is not claimed.
#[verifier::external_body]
pub(crate) fn duration_nanos(d: &Duration) -> (n: u128) {
    d.as_nanos()
}

/// Seconds since the Unix epoch by the wall clock, `0` when the clock reads
/// before the epoch.
pub(crate) fn unix_now_secs() -> u64 {
    match since_epoch(&system_now()) {
        Ok(d) => duration_secs(&d),
        Err(_) => 0,
    }
}

/// Nanoseconds since the Unix epoch by the wall clock, `0` when the clock
/// reads before the epoch.
pub(crate) fn unix_now_nanos() -> u128 {
    match since_epoch(&system_now()) {
        Ok(d) => duration_nanos(&d),
        Err(_) => 0,
    }
}

} // verus!
