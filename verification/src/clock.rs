//! The monotonic clock, as the watchers that decide how often to look at
//! the machine read it.

use std::time::{Duration, Instant, SystemTime, SystemTimeError};
use vstd::prelude::*;

verus! {

/// Whether something last done `since_ms` milliseconds ago (`None` for
/// never) was done less than `limit` milliseconds ago.
pub open spec fn within(since_ms: Option<u64>, limit: u64) -> bool {
    match since_ms {
        Some(ms) => ms < limit,
        None => false,
    }
}

#[verifier::external_type_specification]
#[verifier::external_body]
pub struct ExInstant(Instant);

/// `Instant::now`. Nothing is promised of the reading.
#[verifier::external_body]
pub(crate) fn now() -> Instant {
    Instant::now()
}

#[verifier::external_type_specification]
#[verifier::external_body]
pub struct ExSystemTime(SystemTime);

#[verifier::external_type_specification]
#[verifier::external_body]
pub struct ExSystemTimeError(SystemTimeError);

/// `Instant::elapsed`. Nothing is promised of the reading.
#[verifier::external_body]
fn elapsed(at: &Instant) -> Duration {
    at.elapsed()
}

/// `Duration::as_millis`. Nothing is stated of the duration, which is the
/// clock's.
#[verifier::external_body]
fn as_millis(d: &Duration) -> u128 {
    d.as_millis()
}

/// `Duration::as_nanos`. Nothing is stated of the duration, which is the
/// clock's.
#[verifier::external_body]
fn as_nanos(d: &Duration) -> u128 {
    d.as_nanos()
}

/// `SystemTime::now`. Nothing is promised of the reading.
#[verifier::external_body]
fn system_now() -> SystemTime {
    SystemTime::now()
}

/// `SystemTime::duration_since` the Unix epoch: an error for a clock set
/// before 1970. Nothing is promised of the reading.
#[verifier::external_body]
fn since_epoch(t: &SystemTime) -> Result<Duration, SystemTimeError> {
    t.duration_since(std::time::UNIX_EPOCH)
}

/// How long ago `at` was, in whole milliseconds, saturating at `u64::MAX`.
/// The reading is the clock's.
pub(crate) fn millis_since(at: &Instant) -> u64 {
    let d = elapsed(at);
    let ms = as_millis(&d);
    if ms > 0xffff_ffff_ffff_ffff {
        0xffff_ffff_ffff_ffff
    } else {
        ms as u64
    }
}

/// Nanoseconds since the Unix epoch, cut down to their low 64 bits, or
/// `None` for a clock set before 1970. The reading is the clock's.
pub(crate) fn unix_nanos() -> Option<u64> {
    let t = system_now();
    match since_epoch(&t) {
        Ok(d) => {
            let n = as_nanos(&d);
            Some(n as u64)
        },
        Err(_) => None,
    }
}

} // verus!
