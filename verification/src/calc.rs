//! Fitness arithmetic on exact rationals.

use vstd::prelude::*;

use crate::ratio::Ratio;

verus! {

/// The kelly ratio: mean return over variance, and zero whenever the
/// variance is zero — in particular for the zero-trades case — so no
/// division can misbehave.
pub fn kelly(mean: Ratio, variance: Ratio) -> (r: Ratio)
    requires
        mean.wf(),
        variance.wf(),
        variance.num >= 0,
        -100_000_000_000_000 <= mean.num <= 100_000_000_000_000,
        mean.den <= 200_000,
        variance.num <= 400_000_000_000_000_000_000_000_000_000_000,
        variance.den <= 10_000_000_000_000_000,
    ensures
        variance.spec_is_zero() ==> r.spec_is_zero() && r.wf(),
        !variance.spec_is_zero() ==> r.num == mean.num * variance.den && r.den == mean.den
            * variance.num,
        r.wf(),
{
    if variance.num == 0 {
        Ratio::zero()
    } else {
        proof {
            assert(-1_000_000_000_000_000_000_000_000_000_000 <= mean.num * variance.den
                <= 1_000_000_000_000_000_000_000_000_000_000) by (nonlinear_arith)
                requires
                    -100_000_000_000_000 <= mean.num <= 100_000_000_000_000,
                    1 <= variance.den <= 10_000_000_000_000_000,
            ;
            assert(1 <= mean.den * variance.num
                <= 80_000_000_000_000_000_000_000_000_000_000_000_000) by (nonlinear_arith)
                requires
                    1 <= mean.den <= 200_000,
                    1 <= variance.num <= 400_000_000_000_000_000_000_000_000_000_000,
            ;
        }
        Ratio::new(mean.num * variance.den, mean.den * variance.num)
    }
}

} // verus!
