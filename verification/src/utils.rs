//! Timing helpers for diagnostics.

use std::time::Instant;
use vstd::prelude::*;

verus! {

/// A point in time as the standard library's monotonic clock gives it.
/// Nothing is known of what is inside.
#[verifier::external_type_specification]
#[verifier::external_body]
pub struct ExInstant(Instant);

/// Reads the monotonic clock through `std::time::Instant::now`. The result
/// is whatever the clock says at the moment of the call, so nothing is
/// claimed of it.
#[verifier::external_body]
fn clock_now() -> (instant: Instant) {
    Instant::now()
}

/// Remembers when it was started, so that the time since can be read off.
#[derive(Clone, Copy, Debug)]
pub struct Stopwatch {
    start_time: Instant,
}

impl Stopwatch {
    /// The moment at which the stopwatch was started.
    pub closed spec fn started(&self) -> Instant {
        self.start_time
    }

    /// Starts a stopwatch now.
    pub fn new() -> (watch: Stopwatch) {
        Stopwatch { start_time: clock_now() }
    }

    /// The moment at which the stopwatch was started.
    pub fn start_time(&self) -> (instant: Instant)
        ensures
            instant == self.started(),
    {
        self.start_time
    }
}

} // verus!
