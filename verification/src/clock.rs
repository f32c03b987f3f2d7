//! The monotonic clock that stamps checkpoints.
//!
//! Verus sees nothing inside an `Instant`; what the clock returns is left
//! unconstrained, and everything that is computed from a reading is proved
//! for every value the clock could give.

use std::time::Duration;
use std::time::Instant;
use vstd::prelude::*;

verus! {

/// `std::time::Instant`, a reading of the monotonic clock. Its inside is not
/// looked at.
#[verifier::external_type_specification]
#[verifier::external_body]
pub struct ExInstant(Instant);

/// `Instant::now` reads the clock; nothing is assumed of the reading.
pub assume_specification[ Instant::now ]() -> (now: Instant)
;

/// `Instant::elapsed` gives the time that has passed since the instant was
/// taken; nothing is assumed of its length.
pub assume_specification[ Instant::elapsed ](origin: &Instant) -> (passed: Duration)
;

/// `Duration::as_secs` gives the whole seconds of the length; nothing is
/// assumed of the number.
pub assume_specification[ Duration::as_secs ](length: &Duration) -> (secs: u64)
;

/// `Duration::subsec_nanos` gives the part of the length beyond its whole
/// seconds, in nanoseconds, which is always less than a second.
pub assume_specification[ Duration::subsec_nanos ](length: &Duration) -> (nanos: u32)
    ensures
        nanos < 1_000_000_000,
;

/// A length of `secs` seconds and `subsec_nanos` nanoseconds, in nanoseconds.
/// Lengths past the last timestamp all count as the last one.
pub open spec fn nanos_of(secs: u64, subsec_nanos: u32) -> u64 {
    if secs * 1_000_000_000 + subsec_nanos > u64::MAX {
        u64::MAX
    } else {
        (secs * 1_000_000_000 + subsec_nanos) as u64
    }
}

/// Turns a length of `secs` seconds and `subsec_nanos` nanoseconds into
/// nanoseconds.
pub fn duration_to_nano(secs: u64, subsec_nanos: u32) -> (nanos: u64)
    ensures
        nanos == nanos_of(secs, subsec_nanos),
{
    let total: u128 = secs as u128 * 1_000_000_000 + subsec_nanos as u128;
    if total > u64::MAX as u128 {
        u64::MAX
    } else {
        total as u64
    }
}

/// The time on the clock that started at `origin`, in nanoseconds.
pub(crate) fn read(origin: &Instant) -> (at: u64) {
    let passed = origin.elapsed();
    duration_to_nano(passed.as_secs(), passed.subsec_nanos())
}

} // verus!
