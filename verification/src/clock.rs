//! The wall clock, as far as the library reads it.
//!
//! Nothing is proved of the clock: the two functions here hand on what the
//! standard library returns, and their contracts promise nothing of it.
use vstd::prelude::*;
use std::time::{Duration, Instant};

verus! {

/// `std::time::Instant`, a point in time that is only ever handed on.
#[verifier::external_type_specification]
#[verifier::external_body]
pub struct ExInstant(std::time::Instant);

/// The present instant, from `Instant::now`. Nothing is claimed of it.
#[verifier::external_body]
pub(crate) fn now() -> (start: Instant) {
    Instant::now()
}

/// The time that has passed since `start`, from `Instant::elapsed`. Nothing
/// is claimed of it.
#[verifier::external_body]
pub(crate) fn elapsed_since(start: &Instant) -> (elapsed: Duration) {
    start.elapsed()
}

} // verus!
