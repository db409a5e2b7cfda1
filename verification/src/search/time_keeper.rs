//! A scoped deadline: the search polls it between child evaluations to
//! observe a wall-clock timeout cooperatively.

use vstd::prelude::*;

verus! {

#[verifier::external_type_specification]
#[verifier::external_body]
pub struct ExInstant(std::time::Instant);

/// Relies on `std::time::Instant::now`: a reading of the monotonic clock.
/// Nothing can be promised of a clock reading.
#[verifier::external_body]
fn instant_now() -> std::time::Instant {
    std::time::Instant::now()
}

/// Relies on `std::time::Instant::elapsed`: the time since `start` on the
/// monotonic clock; `Duration::as_nanos` only converts the result to a
/// plain number of nanoseconds. Nothing can be promised of the value.
#[verifier::external_body]
fn elapsed_nanos(start: &std::time::Instant) -> u128 {
    start.elapsed().as_nanos()
}

/// A start instant and a time limit. Read-only after construction.
pub struct TimeKeeper {
    start: std::time::Instant,
    limit_nanos: u64,
}

impl TimeKeeper {
    /// The time limit this keeper was built with, in nanoseconds.
    pub closed spec fn limit(self) -> u64 {
        self.limit_nanos
    }

    /// Start a deadline of `limit_nanos` nanoseconds from now.
    pub fn new(limit_nanos: u64) -> (r: TimeKeeper)
        ensures
            r.limit() == limit_nanos,
    {
        TimeKeeper { start: instant_now(), limit_nanos }
    }

    /// Whether the deadline has passed: the elapsed time has reached the
    /// limit. A zero limit has always passed, whatever the clock says.
    pub fn is_timeout(&self) -> (r: bool)
        ensures
            self.limit() == 0 ==> r,
    {
        elapsed_nanos(&self.start) >= self.limit_nanos as u128
    }
}

} // verus!
