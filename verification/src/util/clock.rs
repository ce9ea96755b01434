//! The clock.

use std::time::Instant;
use vstd::prelude::*;

verus! {

/// `std::time::Instant`, a point in time.
#[verifier::external_type_specification]
#[verifier::external_body]
pub struct ExInstant(Instant);

/// `Instant::now`: the present. Nothing is stated of it.
#[verifier::external_body]
pub(crate) fn now() -> (instant: Instant) {
    Instant::now()
}

/// `Instant::elapsed`: how many nanoseconds have passed since `instant`. Nothing is stated of the
/// number.
#[verifier::external_body]
pub(crate) fn nanos_since(instant: &Instant) -> (nanos: u64) {
    instant.elapsed().as_nanos() as u64
}

} // verus!
