//! The process-wide monotonic clock and the two time types built on it.
//!
//! Time is counted in nanoseconds since the clock's origin. Every node and
//! every driver in a process reads the same clock, so a harness that owns the
//! clock can advance it by hand while nodes are idle.

use vstd::prelude::*;

verus! {

/// A span of time, in nanoseconds.
#[derive(Clone, Copy, Debug, PartialEq, Eq, Structural, Hash)]
pub struct Duration {
    pub nanos: u128,
}

/// A reading of the monotonic clock, in nanoseconds since its origin.
#[derive(Clone, Copy, Debug, PartialEq, Eq, Structural, Hash)]
pub struct Instant {
    pub nanos: u128,
}

/// The nanoseconds in a millisecond.
pub const NANOS_PER_MILLI: u128 = 1_000_000;

impl Duration {
    /// The span of `millis` milliseconds.
    pub fn from_millis(millis: u64) -> (d: Duration)
        ensures
            d.nanos == millis * NANOS_PER_MILLI,
    {
        let wide: u128 = millis as u128;
        assert(wide * NANOS_PER_MILLI <= u128::MAX) by (nonlinear_arith)
            requires
                wide <= u64::MAX,
                NANOS_PER_MILLI == 1_000_000,
        ;
        Duration { nanos: wide * NANOS_PER_MILLI }
    }

    /// The number of whole milliseconds in the span.
    pub fn as_millis(&self) -> (millis: u128)
        ensures
            millis == self.nanos / NANOS_PER_MILLI,
    {
        self.nanos / NANOS_PER_MILLI
    }

    /// `self - other`, or `None` where `other` is the longer span.
    pub fn checked_sub(&self, other: Duration) -> (d: Option<Duration>)
        ensures
            d == if self.nanos >= other.nanos {
                Some(Duration { nanos: (self.nanos - other.nanos) as u128 })
            } else {
                None
            },
    {
        if self.nanos >= other.nanos {
            Some(Duration { nanos: self.nanos - other.nanos })
        } else {
            None
        }
    }
}

impl Instant {
    /// Whether `self` lies strictly after `start + span`. The sum is taken in the
    /// integers: a deadline beyond what an `Instant` can hold is never passed.
    pub open spec fn is_after(self, start: Instant, span: Duration) -> bool {
        self.nanos > start.nanos + span.nanos
    }

    /// Decides [`Instant::is_after`].
    pub fn has_passed(&self, start: Instant, span: Duration) -> (passed: bool)
        ensures
            passed == self.is_after(start, span),
    {
        if start.nanos > u128::MAX - span.nanos {
            false
        } else {
            self.nanos > start.nanos + span.nanos
        }
    }

    /// The time from `earlier` to `self`, zero where `earlier` is the later one.
    pub fn saturating_duration_since(&self, earlier: Instant) -> (d: Duration)
        ensures
            d.nanos == if self.nanos >= earlier.nanos {
                self.nanos - earlier.nanos
            } else {
                0
            },
    {
        if self.nanos >= earlier.nanos {
            Duration { nanos: self.nanos - earlier.nanos }
        } else {
            Duration { nanos: 0 }
        }
    }
}

/// Reads the process-wide clock by `mock_instant::global::MockClock::time`, as
/// nanoseconds since the clock's origin. Nothing is claimed of the reading:
/// whoever owns the clock may set it to any value between two calls.
#[verifier::external_body]
pub fn now() -> Instant {
    Instant { nanos: mock_instant::global::MockClock::time().as_nanos() }
}

} // verus!
