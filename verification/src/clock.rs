//! The monotonic clock that the sleeping futures read.

use vstd::prelude::*;

verus! {

#[verifier::external_type_specification]
#[verifier::external_body]
pub struct ExInstant(std::time::Instant);

/// Calls `std::time::Instant::now`. The reading depends on the moment of the
/// call, so nothing is promised about it.
#[verifier::external_body]
pub(crate) fn instant_now() -> std::time::Instant {
    std::time::Instant::now()
}

/// Calls `std::time::Instant::elapsed`. How much time has passed depends on
/// the moment of the call, so nothing is promised about the result.
#[verifier::external_body]
pub(crate) fn instant_elapsed(start: &std::time::Instant) -> std::time::Duration {
    start.elapsed()
}

/// The whole number of nanoseconds that `d` holds, as
/// `std::time::Duration::as_nanos` returns it.
pub uninterp spec fn duration_nanos(d: std::time::Duration) -> u128;

/// Calls `std::time::Duration::as_nanos`, whose result depends on `d` alone:
/// it is named `duration_nanos(d)`; its value is not stated further.
#[verifier::external_body]
pub(crate) fn duration_as_nanos(d: &std::time::Duration) -> (n: u128)
    ensures
        n == duration_nanos(*d),
{
    d.as_nanos()
}

/// Nanoseconds that have passed since `start`, as the clock reads them now.
pub(crate) fn nanos_since(start: &std::time::Instant) -> u128 {
    let elapsed = instant_elapsed(start);
    duration_as_nanos(&elapsed)
}

} // verus!
