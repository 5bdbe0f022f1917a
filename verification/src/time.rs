//! Points in time and spans of time, in whole nanoseconds.

use vstd::prelude::*;

verus! {

pub const NANOS_PER_MILLI: u128 = 1_000_000;

pub const NANOS_PER_SEC: u128 = 1_000_000_000;

/// A span of time.
#[derive(Clone, Copy, Debug, PartialEq, Eq, PartialOrd, Ord, Hash, Structural)]
pub struct Duration {
    pub nanos: u128,
}

/// A point on a monotonic clock, counted from the clock's origin.
#[derive(Clone, Copy, Debug, PartialEq, Eq, PartialOrd, Ord, Hash, Structural)]
pub struct Instant {
    pub nanos: u128,
}

/// The smaller of two spans.
pub open spec fn min_span(a: Duration, b: Duration) -> Duration {
    if a.nanos <= b.nanos { a } else { b }
}

/// The larger of two spans.
pub open spec fn max_span(a: Duration, b: Duration) -> Duration {
    if a.nanos >= b.nanos { a } else { b }
}

/// How long after `earlier` the point `later` lies; nothing where it lies before it.
pub open spec fn elapsed_between(later: Instant, earlier: Instant) -> nat {
    if later.nanos >= earlier.nanos { (later.nanos - earlier.nanos) as nat } else { 0 }
}

impl Duration {
    pub fn zero() -> (r: Self)
        ensures
            r.nanos == 0,
    {
        Duration { nanos: 0 }
    }

    pub fn from_secs(secs: u64) -> (r: Self)
        ensures
            r.nanos == secs * NANOS_PER_SEC,
    {
        Duration { nanos: (secs as u128) * NANOS_PER_SEC }
    }

    pub fn from_millis(millis: u64) -> (r: Self)
        ensures
            r.nanos == millis * NANOS_PER_MILLI,
    {
        Duration { nanos: (millis as u128) * NANOS_PER_MILLI }
    }

    pub fn is_zero(&self) -> (r: bool)
        ensures
            r == (self.nanos == 0),
    {
        self.nanos == 0
    }

    /// Whole milliseconds, rounded down.
    pub fn as_millis(&self) -> (r: u128)
        ensures
            r == self.nanos / NANOS_PER_MILLI,
    {
        self.nanos / NANOS_PER_MILLI
    }

    /// Whole seconds, rounded down.
    pub fn as_secs(&self) -> (r: u128)
        ensures
            r == self.nanos / NANOS_PER_SEC,
    {
        self.nanos / NANOS_PER_SEC
    }

    /// The product, or `None` where it is out of range.
    pub fn checked_mul(&self, factor: u32) -> (r: Option<Self>)
        ensures
            self.nanos * factor <= u128::MAX ==> r == Some(Duration { nanos: (self.nanos * factor) as u128 }),
            self.nanos * factor > u128::MAX ==> r is None,
    {
        match self.nanos.checked_mul(factor as u128) {
            Some(nanos) => Some(Duration { nanos }),
            None => None,
        }
    }

    /// The sum, held at the largest span.
    pub fn saturating_plus(&self, other: Self) -> (r: Self)
        ensures
            r.nanos == if self.nanos + other.nanos <= u128::MAX { self.nanos + other.nanos } else { u128::MAX as int },
    {
        Duration { nanos: self.nanos.saturating_add(other.nanos) }
    }

    /// The difference, held at zero.
    pub fn saturating_minus(&self, other: Self) -> (r: Self)
        ensures
            r.nanos == if self.nanos >= other.nanos { self.nanos - other.nanos } else { 0 },
    {
        Duration { nanos: self.nanos.saturating_sub(other.nanos) }
    }

    pub fn at_most(&self, cap: Self) -> (r: Self)
        ensures
            r == min_span(*self, cap),
    {
        if self.nanos <= cap.nanos { *self } else { cap }
    }

    pub fn at_least(&self, floor: Self) -> (r: Self)
        ensures
            r == max_span(*self, floor),
    {
        if self.nanos >= floor.nanos { *self } else { floor }
    }
}

impl Default for Duration {
    fn default() -> (r: Self)
        ensures
            r.nanos == 0,
    {
        Duration { nanos: 0 }
    }
}

impl Instant {
    /// Whether the point `span` later can be represented.
    pub open spec fn can_advance(self, span: Duration) -> bool {
        self.nanos + span.nanos <= u128::MAX
    }

    pub fn plus(&self, span: Duration) -> (r: Self)
        requires
            self.can_advance(span),
        ensures
            r.nanos == self.nanos + span.nanos,
    {
        Instant { nanos: self.nanos + span.nanos }
    }

    /// The point `span` earlier, or `None` where it lies before the clock's origin.
    pub fn checked_minus(&self, span: Duration) -> (r: Option<Self>)
        ensures
            self.nanos >= span.nanos ==> r == Some(Instant { nanos: (self.nanos - span.nanos) as u128 }),
            self.nanos < span.nanos ==> r is None,
    {
        match self.nanos.checked_sub(span.nanos) {
            Some(nanos) => Some(Instant { nanos }),
            None => None,
        }
    }

    /// How long after `earlier` this point lies; nothing where it lies before it.
    pub fn saturating_duration_since(&self, earlier: Self) -> (r: Duration)
        ensures
            r.nanos == elapsed_between(*self, earlier),
    {
        Duration { nanos: self.nanos.saturating_sub(earlier.nanos) }
    }

    pub fn latest(&self, other: Self) -> (r: Self)
        ensures
            r == (if self.nanos >= other.nanos { *self } else { other }),
    {
        if self.nanos >= other.nanos { *self } else { other }
    }
}

/// The time between two points in numbers, and the shorter and the longer of two spans.
pub proof fn spans_are_differences(a: Instant, b: Instant, x: Duration, y: Duration)
    ensures
        a.nanos >= b.nanos ==> elapsed_between(a, b) == a.nanos - b.nanos,
        a.nanos < b.nanos ==> elapsed_between(a, b) == 0,
        min_span(x, y).nanos <= x.nanos && min_span(x, y).nanos <= y.nanos,
        min_span(x, y) == x || min_span(x, y) == y,
        max_span(x, y).nanos >= x.nanos && max_span(x, y).nanos >= y.nanos,
        max_span(x, y) == x || max_span(x, y) == y,
{
}

} // verus!
