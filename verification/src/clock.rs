//! The monotonic clock that stamps every sample, in nanoseconds.
use vstd::prelude::*;
use std::time::Duration;
use std::time::Instant;

verus! {

/// `std::time::Instant`, a reading of the monotonic clock; opaque here.
#[verifier::external_type_specification]
#[verifier::external_body]
pub struct ExInstant(Instant);

/// `Instant::elapsed`: the time since the reading. What it returns depends on
/// when it is called, so nothing is stated of it.
pub assume_specification[ Instant::elapsed ](start: &Instant) -> Duration;

/// `Duration::as_nanos`: the whole nanoseconds of a duration. Nothing is
/// stated of it, as the duration itself is opaque here.
pub assume_specification[ Duration::as_nanos ](d: &Duration) -> u128;

/// A nanosecond count cut down to `u64`, saturating at `u64::MAX`.
pub fn saturate_u64(n: u128) -> (r: u64)
    ensures
        r == if n > u64::MAX as u128 { u64::MAX } else { n as u64 },
{
    if n > u64::MAX as u128 {
        u64::MAX
    } else {
        n as u64
    }
}

/// Nanoseconds since `start`, saturating at `u64::MAX`.
pub fn timestamp_ns(start: &Instant) -> u64 {
    let elapsed = start.elapsed();
    saturate_u64(elapsed.as_nanos())
}

} // verus!
