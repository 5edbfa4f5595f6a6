//! The monotonic clock and the optimisation barrier of the standard library,
//! as far as the measurement protocols need them. Nothing is claimed of what
//! the clock reads: the protocols are proved for every reading.

use std::time::{Duration, Instant};
use vstd::prelude::*;

verus! {

/// Trusted: `std::time::Instant`, carried through as an opaque value.
#[verifier::external_type_specification]
#[verifier::external_body]
pub struct ExInstant(Instant);

/// Trusted: `Instant::now` returns; nothing is claimed of the instant.
pub assume_specification[ Instant::now ]() -> (now: Instant)
;

/// Trusted: `Instant::elapsed` returns; nothing is claimed of the time that
/// has passed.
pub assume_specification[ Instant::elapsed ](start: &Instant) -> (passed: Duration)
;

/// Trusted: `Duration::as_nanos` returns; nothing is claimed of the count.
pub assume_specification[ Duration::as_nanos ](span: &Duration) -> (nanos: u128)
;

/// Trusted: `std::hint::black_box` hands its argument back unchanged.
pub assume_specification<T>[ std::hint::black_box::<T> ](dummy: T) -> (same: T)
    ensures
        same == dummy,
;

/// Nanoseconds that have passed since `start`.
pub(crate) fn nanos_since(start: &Instant) -> (nanos: u128) {
    let passed = start.elapsed();
    passed.as_nanos()
}

} // verus!
