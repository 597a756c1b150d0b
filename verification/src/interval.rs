//! Closed numeric ranges over fixed-point scalars.
//!
//! An [`Interval`] bounds valid ray parameters during intersection tests and
//! clamps color channels before quantization.

use vstd::prelude::*;

verus! {

/// The closed range `[min, max]`.  An interval with `min > max` is empty:
/// it contains no value at all.
#[derive(Clone, Copy, Debug, PartialEq, Eq, Structural)]
pub struct Interval {
    pub min: i64,
    pub max: i64,
}

impl Interval {
    pub fn new(min: i64, max: i64) -> (r: Interval)
        ensures
            r.min == min,
            r.max == max,
    {
        Interval { min, max }
    }

    /// The interval that contains nothing, the stand-in for `(+inf, -inf)`.
    pub fn empty() -> (r: Interval)
        ensures
            r.min == i64::MAX,
            r.max == i64::MIN,
    {
        Interval { min: i64::MAX, max: i64::MIN }
    }

    /// The interval that contains every representable value, the stand-in
    /// for `(-inf, +inf)`.
    pub fn universe() -> (r: Interval)
        ensures
            r.min == i64::MIN,
            r.max == i64::MAX,
    {
        Interval { min: i64::MIN, max: i64::MAX }
    }

    pub fn size(&self) -> (r: i64)
        requires
            i64::MIN <= self.max - self.min <= i64::MAX,
        ensures
            r == self.max - self.min,
    {
        self.max - self.min
    }

    /// Where `clamp` sends `x`: to the nearest endpoint if `x` lies outside
    /// the range, and to `x` itself otherwise.
    pub open spec fn clamp_spec(self, x: int) -> int {
        if x < self.min {
            self.min as int
        } else if x > self.max {
            self.max as int
        } else {
            x
        }
    }

    pub fn contains(&self, x: i64) -> (r: bool)
        ensures
            r == (self.min <= x <= self.max),
    {
        self.min <= x && x <= self.max
    }

    pub fn surrounds(&self, x: i64) -> (r: bool)
        ensures
            r == (self.min < x < self.max),
    {
        self.min < x && x < self.max
    }

    pub fn clamp(&self, x: i64) -> (r: i64)
        ensures
            r == self.clamp_spec(x as int),
    {
        if x < self.min {
            self.min
        } else if x > self.max {
            self.max
        } else {
            x
        }
    }
}

impl Default for Interval {
    /// The default interval is the empty one.
    fn default() -> (r: Self)
        ensures
            r.min == i64::MAX,
            r.max == i64::MIN,
    {
        Interval::empty()
    }
}

/// Law: on a nonempty interval, clamping always lands inside the range and
/// doing it twice changes nothing beyond the first time.
pub proof fn lemma_clamp_idempotent(iv: Interval, x: int)
    requires
        iv.min <= iv.max,
    ensures
        iv.min <= iv.clamp_spec(x) <= iv.max,
        iv.clamp_spec(iv.clamp_spec(x)) == iv.clamp_spec(x),
{
}

} // verus!
