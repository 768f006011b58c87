//! Readings of the monotonic clock, for attributing elapsed time.

use std::time::Instant;

use vstd::prelude::*;

verus! {

/// A reading of the monotonic clock. What it holds is not looked into.
#[verifier::external_type_specification]
#[verifier::external_body]
pub struct ExInstant(Instant);

/// Calls `Instant::now`. A reading depends on when it is taken, so nothing is
/// claimed of it.
#[verifier::external_body]
pub(crate) fn clock_now() -> Instant {
    Instant::now()
}

/// Calls `Instant::elapsed`: the time since the reading was taken, in
/// nanoseconds. It depends on when it is called, so nothing is claimed of it.
#[verifier::external_body]
pub(crate) fn clock_elapsed(started: &Instant) -> (nanoseconds: u64) {
    started.elapsed().as_nanos() as u64
}

} // verus!
