use vstd::prelude::*;

use vstd::arithmetic::div_mod::{
    lemma_div_is_ordered, lemma_div_multiples_vanish, lemma_remainder_lower,
};
use vstd::arithmetic::mul::{lemma_mul_inequality, lemma_mul_is_distributive_add};

verus! {

/// Relies on `primitive_types::U256` — the 256-bit integer that the `uint`
/// crate's `construct_uint` macro expands to — for `a * b / c` with a
/// double-width intermediate: the product of two `u128` values always fits
/// in 256 bits, so the quotient is computed exactly and handed back whenever
/// it fits in a `u128`.
#[verifier::external_body]
pub(crate) fn checked_mul_div(a: u128, b: u128, c: u128) -> (r: Option<u128>)
    requires
        c > 0,
    ensures
        r == if a * b / (c as int) <= u128::MAX {
            Some((a * b / (c as int)) as u128)
        } else {
            None::<u128>
        },
{
    let wide = primitive_types::U256::from(a) * primitive_types::U256::from(b)
        / primitive_types::U256::from(c);
    u128::try_from(wide).ok()
}

/// A proportional share never exceeds the whole: when the weight is at most
/// the total, `a * b / c <= a`.
pub proof fn lemma_mul_div_le(a: int, b: int, c: int)
    requires
        0 <= a,
        0 <= b <= c,
        0 < c,
    ensures
        a * b / c <= a,
{
    lemma_mul_inequality(b, c, a);
    assert(a * b <= a * c);
    lemma_div_is_ordered(a * b, a * c, c);
    lemma_div_multiples_vanish(a, c);
    assert(c * a == a * c);
}

/// Rounding down loses at most the fraction: the floored shares of two parts
/// never exceed the floored share of their sum.
pub proof fn lemma_div_add_le(a: int, b: int, d: int)
    requires
        0 <= a,
        0 <= b,
        0 < d,
    ensures
        a / d + b / d <= (a + b) / d,
{
    let q = a / d + b / d;
    lemma_remainder_lower(a, d);
    lemma_remainder_lower(b, d);
    lemma_mul_is_distributive_add(d, a / d, b / d);
    assert(d * q == d * (a / d) + d * (b / d));
    assert(a / d * d == d * (a / d));
    assert(d * q <= a + b);
    lemma_div_is_ordered(d * q, a + b, d);
    lemma_div_multiples_vanish(q, d);
}

} // verus!
