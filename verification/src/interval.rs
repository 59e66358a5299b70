//! A closed scalar range, used both to bound the valid ray parameter
//! during intersection and to clamp colour channels.

use crate::fixed::Fx;
use vstd::prelude::*;

verus! {

/// Saturate `x` into `[min, max]`.
pub open spec fn clamp_spec(min: int, max: int, x: int) -> int {
    if x < min {
        min
    } else if x > max {
        max
    } else {
        x
    }
}

#[derive(Clone, Copy, Debug, PartialEq, Eq, Structural)]
pub struct Interval {
    pub min: Fx,
    pub max: Fx,
}

impl Interval {
    pub fn with_bounds(min: Fx, max: Fx) -> (r: Interval)
        ensures
            r.min@ == min@,
            r.max@ == max@,
    {
        Interval { min, max }
    }

    /// Strict (exclusive) containment: `min < x < max`.
    pub fn surrounds(&self, x: Fx) -> (r: bool)
        ensures
            r == (self.min@ < x@ < self.max@),
    {
        self.min.bits < x.bits && x.bits < self.max.bits
    }

    /// Saturate `x` into the (inclusive) range.
    pub fn clamp(&self, x: Fx) -> (r: Fx)
        ensures
            r@ == clamp_spec(self.min@, self.max@, x@),
    {
        if x.bits < self.min.bits {
            return self.min;
        }
        if x.bits > self.max.bits {
            return self.max;
        }
        x
    }
}

} // verus!
