//! The aggregate ratio of a recipe, kept as an exact rational number:
//! the sum of the members' catalog ratios over the number of members.
//! The mean of the empty ingredient set is the zero scalar, written 0/1.

use vstd::prelude::*;

verus! {

/// An exact rational scalar `num / den`, with `den >= 1`.
///
/// A recipe of `n > 0` ingredients whose catalog ratios sum to `s` has the
/// aggregate ratio `s / n`; an empty recipe has the ratio `0 / 1`.
#[derive(Clone, Copy, Debug, PartialEq, Eq, Structural)]
pub struct Ratio {
    pub num: i128,
    pub den: usize,
}

impl Ratio {
    /// A ratio value is well formed when its denominator is positive.
    pub open spec fn wf(self) -> bool {
        self.den >= 1
    }

    /// `min <= num/den <= max`, stated exactly by cross-multiplication.
    pub open spec fn in_range(self, min: int, max: int) -> bool {
        min * self.den <= self.num <= max * self.den
    }

    /// Decides `min <= num/den <= max` without rounding: both products fit
    /// in `i128` because `|bound| <= 2^63` and `den <= 2^64 - 1`.
    pub fn check_in_range(self, min: i64, max: i64) -> (r: bool)
        requires
            self.wf(),
        ensures
            r == self.in_range(min as int, max as int),
    {
        let d = self.den as i128;
        proof {
            assert((min as i128) * d <= i128::MAX && (min as i128) * d >= i128::MIN)
                by (nonlinear_arith)
                requires
                    1 <= d <= u64::MAX as i128,
                    i64::MIN as i128 <= min as i128 <= i64::MAX as i128,
            ;
            assert((max as i128) * d <= i128::MAX && (max as i128) * d >= i128::MIN)
                by (nonlinear_arith)
                requires
                    1 <= d <= u64::MAX as i128,
                    i64::MIN as i128 <= max as i128 <= i64::MAX as i128,
            ;
        }
        (min as i128) * d <= self.num && self.num <= (max as i128) * d
    }
}

} // verus!
