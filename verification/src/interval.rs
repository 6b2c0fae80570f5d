//! Half-open ranges of ray parameters.

use crate::scalar::Scalar;
use vstd::prelude::*;

verus! {

/// The parameters `t` with `min <= t < max`.
#[derive(Clone, Copy, Debug, PartialEq, Eq, Structural)]
pub struct Interval {
    pub min: Scalar,
    pub max: Scalar,
}

impl Interval {
    pub open spec fn spec_new(min: Scalar, max: Scalar) -> Interval {
        Interval { min, max }
    }

    pub open spec fn spec_contains(self, t: Scalar) -> bool {
        self.min.raw <= t.raw < self.max.raw
    }

    /// The same interval cut off at `max`.
    pub open spec fn spec_until(self, max: Scalar) -> Interval {
        Interval { min: self.min, max }
    }

    /// The interval from `min`, inclusive, to `max`, exclusive.
    #[verifier::when_used_as_spec(spec_new)]
    pub fn new(min: Scalar, max: Scalar) -> (r: Interval)
        ensures
            r == Interval::spec_new(min, max),
    {
        Interval { min, max }
    }

    /// Whether `t` lies in the interval.
    #[verifier::when_used_as_spec(spec_contains)]
    pub fn contains(self, t: Scalar) -> (r: bool)
        ensures
            r == self.spec_contains(t),
    {
        self.min.le(t) && t.lt(self.max)
    }

    /// The interval with the same lower end that stops before `max`.
    #[verifier::when_used_as_spec(spec_until)]
    pub fn until(self, max: Scalar) -> (r: Interval)
        ensures
            r == self.spec_until(max),
    {
        Interval { min: self.min, max }
    }
}

} // verus!
