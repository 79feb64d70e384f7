//! Spans of time and the monotonic clock.

use vstd::prelude::*;

verus! {

/// A span of time in whole nanoseconds.
#[derive(Clone, Copy, Debug, PartialEq, Eq, Structural)]
pub struct Span {
    pub nanos: u128,
}

impl Span {
    /// `millis` milliseconds.
    pub fn from_millis(millis: u64) -> (s: Span)
        ensures
            s.nanos == millis * 1_000_000,
    {
        Span { nanos: millis as u128 * 1_000_000 }
    }

    /// `secs` seconds.
    pub fn from_secs(secs: u64) -> (s: Span)
        ensures
            s.nanos == secs * 1_000_000_000,
    {
        Span { nanos: secs as u128 * 1_000_000_000 }
    }

    /// The whole milliseconds of the span.
    pub fn as_millis(&self) -> (m: u128)
        ensures
            m == self.nanos / 1_000_000,
    {
        self.nanos / 1_000_000
    }
}

/// `std::time::Instant`: a reading of the monotonic clock.
#[verifier::external_type_specification]
#[verifier::external_body]
pub struct ExInstant(std::time::Instant);

/// `std::time::Instant::now`: the clock's reading at this moment.  Nothing is
/// claimed of it.
pub assume_specification[ std::time::Instant::now ]() -> (now: std::time::Instant);

/// `std::time::Instant::elapsed`, in nanoseconds: the time that has passed since
/// `start`.  Nothing is claimed of it.
#[verifier::external_body]
pub(crate) fn elapsed_since(start: &std::time::Instant) -> (passed: Span) {
    Span { nanos: start.elapsed().as_nanos() }
}

} // verus!
