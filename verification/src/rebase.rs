use vstd::prelude::*;

use crate::math::{checked_mul_div, lemma_mul_div_le};

verus! {

/// The fixed-point denominator of the scale factor: a factor of `SCALE_ONE`
/// means one credit unit is worth exactly one unit of the underlying asset.
pub const SCALE_ONE: u128 = 1_000_000_000_000_000_000_000_000;

/// The factor the rebase computes from a local total `a` and a reported
/// total `b`: the ratio of the smaller to the larger, scaled by
/// `SCALE_ONE` and rounded down — the "ratio of extremes", reproduced as the
/// source system computed it, which deliberately discards whether the stake
/// grew or shrank.  The factor is left unchanged when either total is zero,
/// or when the totals are so far apart that the rounded ratio would be zero:
/// both would make the factor useless as a divisor.
pub open spec fn spec_rebase(factor: u128, a: u128, b: u128) -> u128 {
    let lo: u128 = if a < b {
        a
    } else {
        b
    };
    let hi: u128 = if a < b {
        b
    } else {
        a
    };
    if lo == 0 {
        factor
    } else if lo * SCALE_ONE / (hi as int) == 0 {
        factor
    } else {
        (lo * SCALE_ONE / (hi as int)) as u128
    }
}

/// The credit/asset exchange rate, kept in `1 ..= SCALE_ONE`.
pub struct ScaleFactor {
    factor: u128,
}

impl ScaleFactor {
    /// The current factor.
    pub closed spec fn spec_factor(&self) -> u128 {
        self.factor
    }

    /// The factor is a ratio in `(0, 1]`, scaled by `SCALE_ONE`: it never
    /// leaves `1 ..= SCALE_ONE`, so it is always a usable divisor.
    pub closed spec fn wf(&self) -> bool {
        1 <= self.factor <= SCALE_ONE
    }

    /// The factor range, spelled out for other modules' proofs.
    pub proof fn lemma_factor_range(&self)
        requires
            self.wf(),
        ensures
            1 <= self.spec_factor() <= SCALE_ONE,
    {
    }

    /// A fresh engine starts at a ratio of exactly one.
    pub fn new() -> (r: ScaleFactor)
        ensures
            r.wf(),
            r.spec_factor() == SCALE_ONE,
    {
        ScaleFactor { factor: SCALE_ONE }
    }

    pub fn factor(&self) -> (r: u128)
        ensures
            r == self.spec_factor(),
    {
        self.factor
    }

    /// Recomputes the factor from the pool's own total (in underlying
    /// units) and the total the validators reported; see [`spec_rebase`]
    /// for the formula and the cases that leave the factor unchanged.
    pub fn update(&mut self, local_total: u128, reported_total: u128)
        requires
            old(self).wf(),
        ensures
            final(self).wf(),
            final(self).spec_factor() == spec_rebase(
                old(self).spec_factor(),
                local_total,
                reported_total,
            ),
    {
        let lo = if local_total < reported_total {
            local_total
        } else {
            reported_total
        };
        let hi = if local_total < reported_total {
            reported_total
        } else {
            local_total
        };
        if lo == 0 {
            return ;
        }
        proof {
            lemma_mul_div_le(SCALE_ONE as int, lo as int, hi as int);
            assert(lo * SCALE_ONE == SCALE_ONE * lo);
        }
        match checked_mul_div(lo, SCALE_ONE, hi) {
            Some(ratio) => {
                if ratio > 0 {
                    self.factor = ratio;
                }
            },
            None => {
                proof {
                    assert(false);
                }
            },
        }
    }
}

} // verus!
