//! Reading the clock.

use vstd::prelude::*;
use std::time::Duration;
use std::time::Instant;

verus! {

/// A reading of the monotonic clock of std. Nothing is known of what it holds.
#[verifier::external_type_specification]
#[verifier::external_body]
pub struct ExInstant(Instant);

/// `std::time::Instant::now`: the current reading of the monotonic clock.
/// Nothing is claimed of the value.
#[verifier::external_body]
pub(crate) fn start_measure() -> Instant {
    Instant::now()
}

/// `std::time::Instant::elapsed`: the time that has passed since `start`.
/// Nothing is claimed of the value.
#[verifier::external_body]
pub(crate) fn elapsed_since(start: &Instant) -> Duration {
    start.elapsed()
}

/// `std::time::Duration::as_micros`, cut down to 64 bits: the whole
/// microseconds in a duration. Nothing is claimed of the value.
#[verifier::external_body]
pub(crate) fn whole_micros(duration: &Duration) -> u64 {
    duration.as_micros() as u64
}

} // verus!
