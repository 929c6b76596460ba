//! Floating-point values as bit patterns.
//!
//! The numeric order of two IEEE-754 numbers that are not NaN is the order of
//! their ranks: the magnitude bits, negated when the sign bit is set. Both zeros
//! have rank 0.

use vstd::prelude::*;

verus! {

/// Sign bit of a binary64 pattern.
pub const SIGN_64: u64 = 0x8000_0000_0000_0000;

/// Magnitude bits of a binary64 infinity.
pub const INF_64: u64 = 0x7ff0_0000_0000_0000;

/// Sign bit of a binary32 pattern.
pub const SIGN_32: u32 = 0x8000_0000;

/// Magnitude bits of a binary32 infinity.
pub const INF_32: u32 = 0x7f80_0000;

/// A binary64 value, held as its bit pattern.
#[derive(Clone, Copy, Debug, PartialEq, Eq, Structural)]
pub struct Double {
    pub bits: u64,
}

/// A binary32 value, held as its bit pattern.
#[derive(Clone, Copy, Debug, PartialEq, Eq, Structural)]
pub struct Single {
    pub bits: u32,
}

impl Double {
    pub open spec fn magnitude(self) -> int {
        if self.bits >= SIGN_64 {
            self.bits - SIGN_64
        } else {
            self.bits as int
        }
    }

    /// Position of the value on the number line, in units of representable steps.
    pub open spec fn rank(self) -> int {
        if self.bits >= SIGN_64 {
            -self.magnitude()
        } else {
            self.magnitude()
        }
    }

    pub open spec fn nan(self) -> bool {
        self.magnitude() > INF_64
    }

    pub open spec fn finite(self) -> bool {
        self.magnitude() < INF_64
    }

    /// `self < other`, false when either is NaN.
    pub open spec fn below(self, other: Double) -> bool {
        !self.nan() && !other.nan() && self.rank() < other.rank()
    }

    /// `self <= other`, false when either is NaN.
    pub open spec fn at_most(self, other: Double) -> bool {
        !self.nan() && !other.nan() && self.rank() <= other.rank()
    }

    /// Numeric equality: `self == other`, false when either is NaN.
    pub open spec fn equals(self, other: Double) -> bool {
        !self.nan() && !other.nan() && self.rank() == other.rank()
    }

    /// `self > 0`.
    pub open spec fn positive(self) -> bool {
        !self.nan() && self.rank() > 0
    }

    /// Wraps a bit pattern.
    pub fn from_bits(bits: u64) -> (d: Double)
        ensures
            d.bits == bits,
    {
        Double { bits }
    }

    fn abs_bits(self) -> (m: u64)
        ensures
            m == self.magnitude(),
    {
        if self.bits >= SIGN_64 {
            self.bits - SIGN_64
        } else {
            self.bits
        }
    }

    fn signed_rank(self) -> (r: i64)
        ensures
            r == self.rank(),
    {
        let m: i64 = self.abs_bits() as i64;
        if self.bits >= SIGN_64 {
            -m
        } else {
            m
        }
    }

    pub fn is_nan(self) -> (b: bool)
        ensures
            b == self.nan(),
    {
        self.abs_bits() > INF_64
    }

    pub fn is_finite(self) -> (b: bool)
        ensures
            b == self.finite(),
    {
        self.abs_bits() < INF_64
    }

    pub fn lt(self, other: Double) -> (b: bool)
        ensures
            b == self.below(other),
    {
        !self.is_nan() && !other.is_nan() && self.signed_rank() < other.signed_rank()
    }

    pub fn le(self, other: Double) -> (b: bool)
        ensures
            b == self.at_most(other),
    {
        !self.is_nan() && !other.is_nan() && self.signed_rank() <= other.signed_rank()
    }

    pub fn num_eq(self, other: Double) -> (b: bool)
        ensures
            b == self.equals(other),
    {
        !self.is_nan() && !other.is_nan() && self.signed_rank() == other.signed_rank()
    }

    pub fn is_positive(self) -> (b: bool)
        ensures
            b == self.positive(),
    {
        !self.is_nan() && self.signed_rank() > 0
    }
}

impl Single {
    pub open spec fn magnitude(self) -> int {
        if self.bits >= SIGN_32 {
            self.bits - SIGN_32
        } else {
            self.bits as int
        }
    }

    pub open spec fn rank(self) -> int {
        if self.bits >= SIGN_32 {
            -self.magnitude()
        } else {
            self.magnitude()
        }
    }

    pub open spec fn nan(self) -> bool {
        self.magnitude() > INF_32
    }

    pub open spec fn finite(self) -> bool {
        self.magnitude() < INF_32
    }

    pub open spec fn below(self, other: Single) -> bool {
        !self.nan() && !other.nan() && self.rank() < other.rank()
    }

    pub open spec fn at_most(self, other: Single) -> bool {
        !self.nan() && !other.nan() && self.rank() <= other.rank()
    }

    /// `self > 0`.
    pub open spec fn positive(self) -> bool {
        !self.nan() && self.rank() > 0
    }

    /// Wraps a bit pattern.
    pub fn from_bits(bits: u32) -> (s: Single)
        ensures
            s.bits == bits,
    {
        Single { bits }
    }

    fn abs_bits(self) -> (m: u32)
        ensures
            m == self.magnitude(),
    {
        if self.bits >= SIGN_32 {
            self.bits - SIGN_32
        } else {
            self.bits
        }
    }

    fn signed_rank(self) -> (r: i32)
        ensures
            r == self.rank(),
    {
        let m: i32 = self.abs_bits() as i32;
        if self.bits >= SIGN_32 {
            -m
        } else {
            m
        }
    }

    pub fn is_nan(self) -> (b: bool)
        ensures
            b == self.nan(),
    {
        self.abs_bits() > INF_32
    }

    pub fn is_finite(self) -> (b: bool)
        ensures
            b == self.finite(),
    {
        self.abs_bits() < INF_32
    }

    pub fn lt(self, other: Single) -> (b: bool)
        ensures
            b == self.below(other),
    {
        !self.is_nan() && !other.is_nan() && self.signed_rank() < other.signed_rank()
    }

    pub fn le(self, other: Single) -> (b: bool)
        ensures
            b == self.at_most(other),
    {
        !self.is_nan() && !other.is_nan() && self.signed_rank() <= other.signed_rank()
    }

    pub fn is_positive(self) -> (b: bool)
        ensures
            b == self.positive(),
    {
        !self.is_nan() && self.signed_rank() > 0
    }
}

/// The larger number; a NaN gives way to the other.
pub open spec fn larger(a: Double, b: Double) -> Double {
    if a.nan() || a.below(b) {
        b
    } else {
        a
    }
}

/// The smaller number; a NaN gives way to the other.
pub open spec fn smaller(a: Double, b: Double) -> Double {
    if a.nan() || b.below(a) {
        b
    } else {
        a
    }
}

/// `x` held between `lo` and `hi`; a NaN stays.
pub open spec fn clamped(x: Double, lo: Double, hi: Double) -> Double {
    if x.below(lo) {
        lo
    } else if hi.below(x) {
        hi
    } else {
        x
    }
}

/// The larger number; a NaN gives way to the other.
pub fn max_of(a: Double, b: Double) -> (m: Double)
    ensures
        m == larger(a, b),
{
    if a.is_nan() || a.lt(b) {
        b
    } else {
        a
    }
}

/// The smaller number; a NaN gives way to the other.
pub fn min_of(a: Double, b: Double) -> (m: Double)
    ensures
        m == smaller(a, b),
{
    if a.is_nan() || b.lt(a) {
        b
    } else {
        a
    }
}

/// `x` held between `lo` and `hi`; a NaN stays.
pub fn clamp(x: Double, lo: Double, hi: Double) -> (c: Double)
    ensures
        c == clamped(x, lo, hi),
{
    if x.lt(lo) {
        lo
    } else if hi.lt(x) {
        hi
    } else {
        x
    }
}

/// The larger and the smaller of two are among them, and no number among them is larger
/// or smaller; a NaN comes out only of two.
pub proof fn larger_and_smaller_enclose(a: Double, b: Double)
    ensures
        larger(a, b) == a || larger(a, b) == b,
        smaller(a, b) == a || smaller(a, b) == b,
        !a.nan() ==> a.at_most(larger(a, b)) && smaller(a, b).at_most(a),
        !b.nan() ==> b.at_most(larger(a, b)) && smaller(a, b).at_most(b),
        larger(a, b).nan() <==> a.nan() && b.nan(),
        smaller(a, b).nan() <==> a.nan() && b.nan(),
{
}

/// Patterns order as the numbers they stand for: of two without a sign the greater
/// pattern is the greater number, of two with a sign the lesser; one with a sign is never
/// above one without; and both zeros are equal.
pub proof fn patterns_order_as_numbers(a: Double, b: Double)
    requires
        !a.nan(),
        !b.nan(),
    ensures
        a.bits < 0x8000_0000_0000_0000 && b.bits < 0x8000_0000_0000_0000 ==> (a.below(b) <==> a.bits
            < b.bits),
        a.bits >= 0x8000_0000_0000_0000 && b.bits >= 0x8000_0000_0000_0000 ==> (a.below(b)
            <==> b.bits < a.bits),
        a.bits >= 0x8000_0000_0000_0000 && b.bits < 0x8000_0000_0000_0000 ==> a.at_most(b) && (
        a.equals(b) <==> a.bits == 0x8000_0000_0000_0000 && b.bits == 0),
        a.positive() <==> 0 < a.bits < 0x8000_0000_0000_0000,
{
}

/// A number clamped into a range lies in it, and one that lay in it stays.
pub proof fn clamping_bounds(x: Double, lo: Double, hi: Double)
    requires
        !x.nan(),
        lo.at_most(hi),
    ensures
        lo.at_most(clamped(x, lo, hi)),
        clamped(x, lo, hi).at_most(hi),
        lo.at_most(x) && x.at_most(hi) ==> clamped(x, lo, hi) == x,
{
}

/// Numbers are totally ordered: of two values that are not NaN exactly one of
/// `a < b`, `a == b`, `b < a` holds, and `<` is transitive.
pub proof fn doubles_are_totally_ordered(a: Double, b: Double, c: Double)
    requires
        !a.nan(),
        !b.nan(),
        !c.nan(),
    ensures
        a.below(b) || a.equals(b) || b.below(a),
        !(a.below(b) && a.equals(b)),
        !(a.below(b) && b.below(a)),
        !(b.below(a) && a.equals(b)),
        a.below(b) && b.below(c) ==> a.below(c),
        a.at_most(b) <==> !b.below(a),
{
}

} // verus!
