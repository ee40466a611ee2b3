//! Floating-point numbers by their bits.
//!
//! The library stores, compares and clamps such numbers and never computes with
//! them, so their IEEE 754 bits are all it needs: two numbers that are not NaN
//! order as the signed magnitudes of their bits do.

use vstd::prelude::*;

verus! {

/// A 32-bit floating-point number, as `f32::to_bits` gives it.
#[derive(Debug, Clone, Copy, PartialEq, Eq, Structural)]
pub struct Single {
    pub bits: u32,
}

/// A 64-bit floating-point number, as `f64::to_bits` gives it.
#[derive(Debug, Clone, Copy, PartialEq, Eq, Structural)]
pub struct Double {
    pub bits: u64,
}

impl Single {
    /// The bits of 1.0; those of 0.0 are 0.
    pub const ONE_BITS: u32 = 0x3f80_0000;

    /// The bits without the sign.
    pub open spec fn magnitude(self) -> int {
        if self.bits >= 0x8000_0000 {
            self.bits - 0x8000_0000
        } else {
            self.bits as int
        }
    }

    /// The number's place on the line of numbers; both zeros stand at 0.
    pub open spec fn rank(self) -> int {
        if self.bits >= 0x8000_0000 {
            -self.magnitude()
        } else {
            self.magnitude()
        }
    }

    /// Is this no number?
    pub open spec fn is_nan(self) -> bool {
        self.magnitude() > 0x7f80_0000
    }

    /// Neither infinite nor NaN.
    pub open spec fn finite(self) -> bool {
        self.magnitude() < 0x7f80_0000
    }

    /// `self < other`, which no NaN takes part in.
    pub open spec fn below(self, other: Single) -> bool {
        !self.is_nan() && !other.is_nan() && self.rank() < other.rank()
    }

    /// `self >= other`, which no NaN takes part in.
    pub open spec fn at_least(self, other: Single) -> bool {
        !self.is_nan() && !other.is_nan() && self.rank() >= other.rank()
    }

    /// The number, brought into the range where it lies outside; a NaN stays.
    pub open spec fn clamped(self, low: Single, high: Single) -> Single {
        if self.below(low) {
            low
        } else if high.below(self) {
            high
        } else {
            self
        }
    }

    fn nan(self) -> (is: bool)
        ensures
            is == self.is_nan(),
    {
        let magnitude: u32 = if self.bits >= 0x8000_0000 {
            self.bits - 0x8000_0000
        } else {
            self.bits
        };
        magnitude > 0x7f80_0000
    }

    /// Neither infinite nor NaN.
    pub fn is_finite(self) -> (is: bool)
        ensures
            is == self.finite(),
    {
        let magnitude: u32 = if self.bits >= 0x8000_0000 {
            self.bits - 0x8000_0000
        } else {
            self.bits
        };
        magnitude < 0x7f80_0000
    }

    fn place(self) -> (rank: i64)
        ensures
            rank == self.rank(),
    {
        if self.bits >= 0x8000_0000 {
            -((self.bits - 0x8000_0000) as i64)
        } else {
            self.bits as i64
        }
    }

    /// `self < other`.
    pub fn less(self, other: Single) -> (is: bool)
        ensures
            is == self.below(other),
    {
        !self.nan() && !other.nan() && self.place() < other.place()
    }

    /// `self >= other`.
    pub fn reaches(self, other: Single) -> (is: bool)
        ensures
            is == self.at_least(other),
    {
        !self.nan() && !other.nan() && self.place() >= other.place()
    }

    /// The number, brought into the range where it lies outside; a NaN stays.
    pub fn clamp(self, low: Single, high: Single) -> (out: Single)
        ensures
            out == self.clamped(low, high),
    {
        if self.less(low) {
            low
        } else if high.less(self) {
            high
        } else {
            self
        }
    }
}

impl Double {
    /// The bits without the sign.
    pub open spec fn magnitude(self) -> int {
        if self.bits >= 0x8000_0000_0000_0000 {
            self.bits - 0x8000_0000_0000_0000
        } else {
            self.bits as int
        }
    }

    /// The number's place on the line of numbers; both zeros stand at 0.
    pub open spec fn rank(self) -> int {
        if self.bits >= 0x8000_0000_0000_0000 {
            -self.magnitude()
        } else {
            self.magnitude()
        }
    }

    /// Is this no number?
    pub open spec fn is_nan(self) -> bool {
        self.magnitude() > 0x7ff0_0000_0000_0000
    }

    /// `self >= other`, which no NaN takes part in.
    pub open spec fn at_least(self, other: Double) -> bool {
        !self.is_nan() && !other.is_nan() && self.rank() >= other.rank()
    }

    /// Are these numbers, and different ones?
    pub open spec fn apart(self, other: Double) -> bool {
        !self.is_nan() && !other.is_nan() && self.rank() != other.rank()
    }

    fn nan(self) -> (is: bool)
        ensures
            is == self.is_nan(),
    {
        let magnitude: u64 = if self.bits >= 0x8000_0000_0000_0000 {
            self.bits - 0x8000_0000_0000_0000
        } else {
            self.bits
        };
        magnitude > 0x7ff0_0000_0000_0000
    }

    fn place(self) -> (rank: i128)
        ensures
            rank == self.rank(),
    {
        if self.bits >= 0x8000_0000_0000_0000 {
            -((self.bits - 0x8000_0000_0000_0000) as i128)
        } else {
            self.bits as i128
        }
    }

    /// `self >= other`.
    pub fn reaches(self, other: Double) -> (is: bool)
        ensures
            is == self.at_least(other),
    {
        !self.nan() && !other.nan() && self.place() >= other.place()
    }

    /// Are these numbers, and different ones?
    pub fn differs(self, other: Double) -> (is: bool)
        ensures
            is == self.apart(other),
    {
        !self.nan() && !other.nan() && self.place() != other.place()
    }

    /// Equal as numbers are: no NaN equals anything, and both zeros are equal.
    pub open spec fn same_number(self, other: Double) -> bool {
        !self.is_nan() && !other.is_nan() && self.rank() == other.rank()
    }

    /// Equal as numbers are.
    pub fn equals(self, other: Double) -> (is: bool)
        ensures
            is == self.same_number(other),
    {
        !self.nan() && !other.nan() && self.place() == other.place()
    }

    /// Neither infinite nor NaN.
    pub open spec fn finite(self) -> bool {
        self.magnitude() < 0x7ff0_0000_0000_0000
    }

    /// Neither infinite nor NaN.
    pub fn is_finite(self) -> (is: bool)
        ensures
            is == self.finite(),
    {
        let magnitude: u64 = if self.bits >= 0x8000_0000_0000_0000 {
            self.bits - 0x8000_0000_0000_0000
        } else {
            self.bits
        };
        magnitude < 0x7ff0_0000_0000_0000
    }
}

/// A number that is no NaN lies in the range it was clamped to, and clamping it
/// again changes nothing.
pub proof fn law_clamp(x: Single, low: Single, high: Single)
    requires
        !x.is_nan(),
        !low.is_nan(),
        !high.is_nan(),
        low.rank() <= high.rank(),
    ensures
        x.clamped(low, high).at_least(low),
        high.at_least(x.clamped(low, high)),
        x.clamped(low, high).clamped(low, high) == x.clamped(low, high),
{
}


/// The order of the bits is the order of the numbers. Of two that are not negative,
/// the one with the smaller bits is the smaller number; of two negative ones, the
/// one with the larger bits is; and a negative one is below every one that is not.
pub proof fn law_bits_order(x: Single, y: Single)
    requires
        x.bits <= 0x7f80_0000 || 0x8000_0000 < x.bits <= 0xff80_0000,
        y.bits <= 0x7f80_0000 || 0x8000_0000 < y.bits <= 0xff80_0000,
    ensures
        x.bits < 0x8000_0000 && y.bits < 0x8000_0000 ==> (x.below(y) <==> x.bits < y.bits),
        x.bits > 0x8000_0000 && y.bits > 0x8000_0000 ==> (x.below(y) <==> x.bits > y.bits),
        x.bits > 0x8000_0000 && y.bits < 0x8000_0000 ==> x.below(y) && !y.below(x),
        x.at_least(y) <==> !x.below(y),
        x.below(y) || y.below(x) || x == y,
{
}

/// What is no number takes part in no comparison, and is not finite; nor is an
/// infinity, which is a number.
pub proof fn law_no_number(x: Single, y: Single)
    ensures
        x.is_nan() <==> 0x7f80_0000 < x.bits < 0x8000_0000 || 0xff80_0000 < x.bits,
        x.finite() <==> !x.is_nan() && x.bits != 0x7f80_0000 && x.bits != 0xff80_0000,
        x.is_nan() || y.is_nan() ==> !x.below(y) && !x.at_least(y),
        x.is_nan() ==> x.clamped(y, y) == x,
{
}

/// A number in the range stays as it is; one below it becomes its lower bound, and
/// one above it its upper bound.
pub proof fn law_clamp_to_the_nearest(x: Single, low: Single, high: Single)
    requires
        !low.is_nan(),
        !high.is_nan(),
        low.rank() <= high.rank(),
    ensures
        x.at_least(low) && high.at_least(x) ==> x.clamped(low, high) == x,
        x.below(low) ==> x.clamped(low, high) == low,
        high.below(x) ==> x.clamped(low, high) == high,
{
}

/// The same order, for the wider numbers. Two of them are the same number, or apart,
/// or one is none.
pub proof fn law_wide_bits_order(x: Double, y: Double)
    requires
        x.bits <= 0x7ff0_0000_0000_0000 || 0x8000_0000_0000_0000 < x.bits
            <= 0xfff0_0000_0000_0000,
        y.bits <= 0x7ff0_0000_0000_0000 || 0x8000_0000_0000_0000 < y.bits
            <= 0xfff0_0000_0000_0000,
    ensures
        x.bits < 0x8000_0000_0000_0000 && y.bits < 0x8000_0000_0000_0000 ==> (x.at_least(y)
            <==> x.bits >= y.bits),
        x.bits > 0x8000_0000_0000_0000 && y.bits > 0x8000_0000_0000_0000 ==> (x.at_least(y)
            <==> x.bits <= y.bits),
        x.bits > 0x8000_0000_0000_0000 && y.bits < 0x8000_0000_0000_0000 ==> !x.at_least(y)
            && y.at_least(x),
        x.same_number(y) <==> x == y,
        x.apart(y) <==> x != y,
{
}

/// What is no number, of the wider ones.
pub proof fn law_no_wide_number(x: Double, y: Double)
    ensures
        x.is_nan() <==> 0x7ff0_0000_0000_0000 < x.bits < 0x8000_0000_0000_0000
            || 0xfff0_0000_0000_0000 < x.bits,
        x.finite() <==> !x.is_nan() && x.bits != 0x7ff0_0000_0000_0000 && x.bits
            != 0xfff0_0000_0000_0000,
        x.is_nan() || y.is_nan() ==> !x.at_least(y) && !x.apart(y) && !x.same_number(y),
{
}

} // verus!
