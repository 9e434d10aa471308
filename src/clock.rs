//! Trusted access to the monotonic clock.
use vstd::prelude::*;

verus! {

#[verifier::external_type_specification]
#[verifier::external_body]
pub struct ExInstant(std::time::Instant);

/// Relies on std::time::Instant::now, which reads the monotonic clock.
#[verifier::external_body]
pub(crate) fn instant_now() -> (now: std::time::Instant) {
    std::time::Instant::now()
}

/// Relies on std::time::Instant::elapsed: the time passed since `start`.
#[verifier::external_body]
pub(crate) fn elapsed_since(start: &std::time::Instant) -> (passed: std::time::Duration) {
    start.elapsed()
}

/// Relies on std::time::Duration::as_micros: whole microseconds in `d`.
#[verifier::external_body]
pub(crate) fn whole_micros(d: &std::time::Duration) -> (micros: u128) {
    d.as_micros()
}

} // verus!
