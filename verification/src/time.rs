//! Points and spans of time, counted in whole nanoseconds.

use vstd::prelude::*;

verus! {

/// A span of time.
#[derive(Clone, Copy, Debug, PartialEq, Eq, Structural)]
pub struct Duration {
    pub nanos: u128,
}

/// A point on the session's monotonic clock, counted from the clock's origin.
#[derive(Clone, Copy, Debug, PartialEq, Eq, Structural)]
pub struct Instant {
    pub nanos: u128,
}

pub const NANOS_PER_MILLI: u128 = 1_000_000;

pub const NANOS_PER_SEC: u128 = 1_000_000_000;

impl Duration {
    /// A span of whole milliseconds.
    pub fn from_millis(millis: u64) -> (span: Duration)
        ensures
            span.nanos == millis * NANOS_PER_MILLI,
    {
        assert(millis * NANOS_PER_MILLI <= u128::MAX) by (nonlinear_arith)
            requires
                millis <= u64::MAX,
                NANOS_PER_MILLI == 1_000_000,
        ;
        Duration { nanos: (millis as u128) * NANOS_PER_MILLI }
    }

    /// A span of whole seconds.
    pub fn from_secs(seconds: u64) -> (span: Duration)
        ensures
            span.nanos == seconds * NANOS_PER_SEC,
    {
        assert(seconds * NANOS_PER_SEC <= u128::MAX) by (nonlinear_arith)
            requires
                seconds <= u64::MAX,
                NANOS_PER_SEC == 1_000_000_000,
        ;
        Duration { nanos: (seconds as u128) * NANOS_PER_SEC }
    }

    /// The shorter of two spans.
    pub fn min(self, other: Duration) -> (span: Duration)
        ensures
            span.nanos == if self.nanos <= other.nanos {
                self.nanos
            } else {
                other.nanos
            },
    {
        if self.nanos <= other.nanos {
            self
        } else {
            other
        }
    }
}

impl Instant {
    /// Whether the clock can name the point `span` after this one.
    pub open spec fn reaches(self, span: Duration) -> bool {
        self.nanos + span.nanos <= u128::MAX
    }

    /// The point `span` after this one.
    pub open spec fn plus(self, span: Duration) -> Instant {
        Instant { nanos: (self.nanos + span.nanos) as u128 }
    }

    /// The point where the clock starts.
    pub open spec fn at_origin() -> Instant {
        Instant { nanos: 0 }
    }

    /// The point where the clock starts.
    pub fn origin() -> (point: Instant)
        ensures
            point == Instant::at_origin(),
    {
        Instant { nanos: 0 }
    }

    /// The point `span` after this one.
    pub fn after(self, span: Duration) -> (point: Instant)
        requires
            self.reaches(span),
        ensures
            point == self.plus(span),
            point.nanos == self.nanos + span.nanos,
    {
        Instant { nanos: self.nanos + span.nanos }
    }

    /// The time from `earlier` to this point, and no time at all when
    /// `earlier` is the later one.
    pub fn saturating_duration_since(self, earlier: Instant) -> (span: Duration)
        ensures
            span.nanos == if earlier.nanos <= self.nanos {
                self.nanos - earlier.nanos
            } else {
                0
            },
    {
        if earlier.nanos <= self.nanos {
            Duration { nanos: self.nanos - earlier.nanos }
        } else {
            Duration { nanos: 0 }
        }
    }
}

/// Going on by a span adds its nanoseconds, and the clock can name every point
/// whose number fits in 128 bits.
pub proof fn spans_add_up(point: Instant, span: Duration)
    ensures
        point.reaches(span) <==> point.nanos + span.nanos
            <= 0xffff_ffff_ffff_ffff_ffff_ffff_ffff_ffff,
        point.reaches(span) ==> point.plus(span).nanos == point.nanos + span.nanos,
        Instant::at_origin().nanos == 0,
{
}

/// A second is a thousand milliseconds, and a millisecond a million nanoseconds.
pub proof fn units_are_decimal()
    ensures
        NANOS_PER_MILLI == 1_000_000,
        NANOS_PER_SEC == 1000 * NANOS_PER_MILLI,
{
}

} // verus!
