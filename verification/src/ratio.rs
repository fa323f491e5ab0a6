//! Exact rational numbers for fitness statistics.  The original
//! statistics (mean return, variance, kelly, win percentage) are
//! quotients of integer sums, so they are kept as numerator and
//! denominator instead of being rounded through floating point.

use vstd::prelude::*;

verus! {

/// A rational number; well-formed values keep the denominator
/// positive, so the sign lives in the numerator.
#[derive(Clone, Copy, Debug, PartialEq, Eq, Structural)]
pub struct Ratio {
    pub num: i128,
    pub den: i128,
}

/// Magnitude bound under which two rationals can be compared by
/// cross-multiplication without overflowing `i128`.
pub open spec fn ratio_cmp_bound() -> int {
    0x4000_0000_0000_0000
}

impl Ratio {
    /// The denominator is positive.
    pub open spec fn wf(self) -> bool {
        self.den >= 1
    }

    /// Both fields are small enough for cross-multiplied comparison.
    pub open spec fn small(self) -> bool {
        &&& self.wf()
        &&& -ratio_cmp_bound() < self.num < ratio_cmp_bound()
        &&& self.den < ratio_cmp_bound()
    }

    /// The rational value `a/b` that `self` stands for equals zero.
    pub open spec fn spec_is_zero(self) -> bool {
        self.num == 0
    }

    /// Mathematical ordering of two rationals with positive
    /// denominators, by cross-multiplication.
    pub open spec fn spec_le(self, other: Ratio) -> bool {
        self.num * other.den <= other.num * self.den
    }

    /// The rational zero.
    pub fn zero() -> (r: Ratio)
        ensures
            r.num == 0,
            r.den == 1,
            r.wf(),
            r.spec_is_zero(),
    {
        Ratio { num: 0, den: 1 }
    }

    /// Builds `num/den`.
    pub fn new(num: i128, den: i128) -> (r: Ratio)
        requires
            den >= 1,
        ensures
            r.num == num,
            r.den == den,
            r.wf(),
    {
        Ratio { num, den }
    }

    /// Whether the value is zero.
    pub fn is_zero(&self) -> (b: bool)
        ensures
            b == self.spec_is_zero(),
    {
        self.num == 0
    }

    /// Whether `self <= other` as rational numbers.
    pub fn le(&self, other: &Ratio) -> (b: bool)
        requires
            self.small(),
            other.small(),
        ensures
            b == self.spec_le(*other),
    {
        proof {
            assert((-(ratio_cmp_bound() * ratio_cmp_bound()) < self.num * other.den < ratio_cmp_bound()
                * ratio_cmp_bound()) && (-(ratio_cmp_bound() * ratio_cmp_bound()) < other.num
                * self.den < ratio_cmp_bound() * ratio_cmp_bound())) by (nonlinear_arith)
                requires
                    self.small(),
                    other.small(),
            ;
        }
        self.num * other.den <= other.num * self.den
    }
}

} // verus!
