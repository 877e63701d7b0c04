//! The monotonic clock, read as a number of nanoseconds.

use std::time::Instant;
use vstd::prelude::*;

verus! {

/// `std::time::Instant`, a reading of the monotonic clock.
#[verifier::external_type_specification]
#[verifier::external_body]
pub struct ExInstant(Instant);

/// The most nanoseconds that a `std::time::Duration` holds: `u64::MAX` seconds
/// and one nanosecond less than a further second.
pub open spec fn max_duration_nanos() -> int {
    u64::MAX * 1_000_000_000 + 999_999_999
}

/// Calls `std::time::Instant::now`. Nothing is claimed of the reading: it rests
/// on the time of the call.
#[verifier::external_body]
pub(crate) fn instant_now() -> (now: Instant) {
    Instant::now()
}

/// Calls `std::time::Instant::elapsed` and gives the duration in nanoseconds.
/// The contract claims only that the number is one that a `Duration` can hold;
/// which one it is rests on the time of the call.
#[verifier::external_body]
pub(crate) fn elapsed_nanos(origin: &Instant) -> (nanos: u128)
    ensures
        nanos <= max_duration_nanos(),
{
    origin.elapsed().as_nanos()
}

} // verus!
