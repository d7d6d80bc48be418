//! The wall clock, in milliseconds.

use std::time::{Duration, SystemTime};
use vstd::prelude::*;

verus! {

/// `std::time::SystemTime`, a reading of the system clock.
#[verifier::external_type_specification]
#[verifier::external_body]
pub struct ExSystemTime(std::time::SystemTime);

/// `SystemTime::now` reads the system clock. Nothing is promised of the
/// reading.
pub assume_specification[ SystemTime::now ]() -> (t: SystemTime)
;

/// `SystemTime::duration_since` the Unix epoch. A clock that stands before
/// the epoch reads as no time at all.
#[verifier::external_body]
pub(crate) fn since_epoch(t: &SystemTime) -> Duration {
    t.duration_since(std::time::UNIX_EPOCH).unwrap_or_default()
}

/// `Duration::as_millis` gives the whole milliseconds in a duration.
pub assume_specification[ Duration::as_millis ](d: &Duration) -> (ms: u128)
;

/// The milliseconds since the Unix epoch, as far as they fit.
pub fn get_now_millis() -> u64 {
    let t = SystemTime::now();
    millis_as_u64(since_epoch(&t).as_millis())
}

/// A count of milliseconds in 64 bits: the count itself where it fits, and
/// the largest number of 64 bits where it does not.
pub open spec fn millis_spec(ms: u128) -> u64 {
    if ms > u64::MAX {
        u64::MAX
    } else {
        ms as u64
    }
}

/// Fits a count of milliseconds into 64 bits.
pub fn millis_as_u64(ms: u128) -> (fitted: u64)
    ensures
        fitted == millis_spec(ms),
{
    if ms > 0xffff_ffff_ffff_ffff {
        0xffff_ffff_ffff_ffff
    } else {
        ms as u64
    }
}

} // verus!
