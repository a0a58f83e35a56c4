//! Single-precision numbers by their IEEE 754 encoding. The library stores,
//! compares and bounds them; arithmetic on them is the host's.

use vstd::prelude::*;

verus! {

/// A single-precision number, as the 32 bits of its encoding: the sign, then the
/// magnitude. Among numbers of one sign a larger magnitude has a larger encoding.
#[derive(Clone, Copy, Debug, PartialEq, Eq, Structural)]
pub struct Scalar {
    pub bits: u32,
}

impl Scalar {
    /// The encoding without its sign.
    pub open spec fn magnitude(self) -> int {
        self.bits as int % 0x8000_0000
    }

    pub open spec fn is_nan(self) -> bool {
        self.magnitude() > 0x7F80_0000
    }

    /// An integer that grows with the number: the magnitude with its sign. Both
    /// zeros have the same rank. It means nothing for a NaN.
    pub open spec fn rank(self) -> int {
        if self.bits >= 0x8000_0000 {
            -self.magnitude()
        } else {
            self.magnitude()
        }
    }

    /// `self < other`: false if either is a NaN.
    pub open spec fn below(self, other: Scalar) -> bool {
        !self.is_nan() && !other.is_nan() && self.rank() < other.rank()
    }

    /// `self <= other`: false if either is a NaN.
    pub open spec fn at_most(self, other: Scalar) -> bool {
        !self.is_nan() && !other.is_nan() && self.rank() <= other.rank()
    }

    /// The number brought between two bounds; a NaN stays as it is.
    pub open spec fn bounded(self, low: Scalar, high: Scalar) -> Scalar {
        if self.below(low) {
            low
        } else if high.below(self) {
            high
        } else {
            self
        }
    }

    /// The larger of two numbers, or the one that is not a NaN.
    pub open spec fn larger(self, other: Scalar) -> Scalar {
        if self.is_nan() || self.below(other) {
            other
        } else {
            self
        }
    }

    /// The number from its encoding.
    pub fn from_bits(bits: u32) -> (r: Scalar)
        ensures
            r.bits == bits,
    {
        Scalar { bits }
    }

    pub fn nan(&self) -> (r: bool)
        ensures
            r == self.is_nan(),
    {
        self.bits % 0x8000_0000 > 0x7F80_0000
    }

    /// The rank as a machine integer.
    pub fn order(&self) -> (r: i64)
        ensures
            r == self.rank(),
            -0x8000_0000 < r < 0x8000_0000,
    {
        let m: i64 = (self.bits % 0x8000_0000) as i64;
        if self.bits >= 0x8000_0000 {
            -m
        } else {
            m
        }
    }

    pub fn lt(&self, other: Scalar) -> (r: bool)
        ensures
            r == self.below(other),
    {
        !self.nan() && !other.nan() && self.order() < other.order()
    }

    pub fn le(&self, other: Scalar) -> (r: bool)
        ensures
            r == self.at_most(other),
    {
        !self.nan() && !other.nan() && self.order() <= other.order()
    }

    pub fn clamp(self, low: Scalar, high: Scalar) -> (r: Scalar)
        ensures
            r == self.bounded(low, high),
    {
        if self.lt(low) {
            low
        } else if high.lt(self) {
            high
        } else {
            self
        }
    }

    pub fn max(self, other: Scalar) -> (r: Scalar)
        ensures
            r == self.larger(other),
    {
        if self.nan() || self.lt(other) {
            other
        } else {
            self
        }
    }
}

/// A number that is no NaN ends up between the bounds.
pub proof fn bounded_is_within(x: Scalar, low: Scalar, high: Scalar)
    requires
        !x.is_nan(),
        low.at_most(high),
    ensures
        low.at_most(x.bounded(low, high)),
        x.bounded(low, high).at_most(high),
{
}

} // verus!
