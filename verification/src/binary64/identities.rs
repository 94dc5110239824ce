//! Identities of the arithmetic: what one, zero and the order of the
//! operands do to a result.

use vstd::prelude::*;
use vstd::arithmetic::power2::{pow2, lemma_pow2_adds, lemma_pow2_pos, lemma2_to64};
use crate::binary64::encoding::{
    INFINITY, ONE, is_finite, is_nan, is_zero, magnitude, negative, scaled, lemma_increasing,
    lemma_zero_and_one,
};
use crate::binary64::exact::Exact;
use crate::binary64::product::product;
use crate::binary64::rounding::{
    midpoint, rounds_to, lemma_nearest, lemma_nearest_at_least, lemma_nearest_total,
    lemma_representable,
};
use crate::binary64::sum::sum;

verus! {

/// Whether two words are equal as numbers: neither is a NaN, and they are
/// one word or are both zeros.
pub open spec fn same(a: u64, b: u64) -> bool {
    &&& !is_nan(a)
    &&& !is_nan(b)
    &&& (a == b || (is_zero(a) && is_zero(b)))
}

/// Whether the square of a word is rounded to zero: whether the exact
/// square is at most half of `2^-1074`.
pub open spec fn negligible(c: u64) -> bool {
    2 * (scaled(magnitude(c)) * scaled(magnitude(c))) <= pow2(1074)
}

/// One times a finite number is that number.
pub proof fn lemma_one_times(x: u64)
    requires
        is_finite(x),
    ensures
        product(ONE, x) == x,
{
    lemma_zero_and_one();
    lemma_pow2_pos(1074);
    let v = scaled(magnitude(x));
    assert(pow2(1074) * v == v * pow2(1074)) by (nonlinear_arith);
    lemma_representable(magnitude(x), pow2(1074));
}

/// Zero times a finite number is a zero.
pub proof fn lemma_zero_times(y: u64)
    requires
        is_finite(y),
    ensures
        is_zero(product(0, y)),
{
    lemma_zero_and_one();
    lemma_pow2_pos(1074);
    let v = scaled(magnitude(y));
    assert(0 * v == 0 * pow2(1074)) by (nonlinear_arith);
    lemma_representable(0, pow2(1074));
}

/// A zero added to a finite number leaves the number: the very word where
/// the number is not a zero, and a zero where it is one.
pub proof fn lemma_plus_zero(a: u64, z: u64)
    requires
        is_finite(a),
        is_zero(z),
    ensures
        !is_zero(a) ==> sum(a, z) == a && sum(z, a) == a,
        is_zero(a) ==> is_zero(sum(a, z)) && is_zero(sum(z, a)),
        same(sum(a, z), a),
        same(sum(z, a), a),
{
    let m = magnitude(a);
    lemma_zero_and_one();
    assert(scaled(m) * 1 == scaled(m)) by (nonlinear_arith);
    lemma_representable(m, 1);
    if m > 0 {
        lemma_increasing(0, m);
    }
}

/// The sum of two finite numbers is a number.
pub proof fn lemma_sum_is_a_number(a: u64, b: u64)
    requires
        is_finite(a),
        is_finite(b),
    ensures
        !is_nan(sum(a, b)),
{
    let ma = magnitude(a);
    let mb = magnitude(b);
    lemma_nearest_total(Exact::Ratio { num: scaled(ma) + scaled(mb), den: 1 });
    if ma > mb {
        lemma_nearest_total(Exact::Ratio { num: (scaled(ma) - scaled(mb)) as nat, den: 1 });
    } else if mb > ma {
        lemma_nearest_total(Exact::Ratio { num: (scaled(mb) - scaled(ma)) as nat, den: 1 });
    }
}

/// Operands that are equal as numbers give sums that are equal as numbers.
pub proof fn lemma_sum_of_same(c: u64, d: u64, t: u64)
    requires
        is_finite(c),
        is_finite(t),
        same(c, d),
    ensures
        same(sum(d, t), sum(c, t)),
{
    lemma_sum_is_a_number(c, t);
    if c != d {
        lemma_plus_zero(t, c);
        lemma_plus_zero(t, d);
    }
}

/// A finite number and two zeros, summed from left to right in any order
/// and then added to an offset, give the number plus the offset.
pub proof fn lemma_sum_with_zeros(c: u64, z1: u64, z2: u64, t: u64)
    requires
        is_finite(c),
        is_finite(t),
        is_zero(z1),
        is_zero(z2),
    ensures
        same(sum(sum(sum(c, z1), z2), t), sum(c, t)),
        same(sum(sum(sum(z1, c), z2), t), sum(c, t)),
        same(sum(sum(sum(z1, z2), c), t), sum(c, t)),
{
    lemma_plus_zero(c, z1);
    lemma_plus_zero(sum(c, z1), z2);
    lemma_plus_zero(sum(z1, c), z2);
    lemma_plus_zero(z1, z2);
    lemma_plus_zero(c, sum(z1, z2));
    lemma_sum_of_same(c, sum(sum(c, z1), z2), t);
    lemma_sum_of_same(c, sum(sum(z1, c), z2), t);
    lemma_sum_of_same(c, sum(sum(z1, z2), c), t);
}

/// The rounded square of a finite number is not negative and not a NaN,
/// and it is zero exactly if the number is negligible.
pub proof fn lemma_square(c: u64)
    requires
        is_finite(c),
    ensures
        !negative(product(c, c)),
        !is_nan(product(c, c)),
        is_zero(product(c, c)) <==> negligible(c),
{
    let v = scaled(magnitude(c));
    let x = Exact::Ratio { num: v * v, den: pow2(1074) };
    lemma_pow2_pos(1074);
    lemma2_to64();
    lemma_nearest_total(x);
    lemma_zero_and_one();
    assert(scaled(1) == 1 * pow2(0));
    assert(midpoint(0) == 1);
    if negligible(c) {
        assert(rounds_to(x, 0));
        lemma_nearest(x, 0);
    }
}

/// A number of absolute value at least `2^-537` is not negligible.
pub proof fn lemma_not_negligible(c: u64)
    requires
        scaled(magnitude(c)) >= pow2(537),
    ensures
        !negligible(c),
{
    lemma_pow2_adds(537, 537);
    lemma_pow2_adds(1, 1074);
    lemma2_to64();
    let v = scaled(magnitude(c));
    let p = pow2(537);
    assert(p * p <= v * v) by (nonlinear_arith)
        requires
            p <= v,
            p >= 0,
    ;
    lemma_pow2_pos(1074);
}

/// The sum of two numbers that are not negative is not negative, and it is
/// zero exactly if both are.
pub proof fn lemma_sum_of_nonnegatives(a: u64, b: u64)
    requires
        !is_nan(a) && !negative(a),
        !is_nan(b) && !negative(b),
    ensures
        !is_nan(sum(a, b)),
        !negative(sum(a, b)),
        is_zero(sum(a, b)) <==> is_zero(a) && is_zero(b),
{
    if a < INFINITY && b < INFINITY {
        let x = Exact::Ratio { num: scaled(a) + scaled(b), den: 1 };
        lemma_nearest_total(x);
        lemma2_to64();
        lemma_zero_and_one();
        if a > 0 {
            assert(scaled(a) * 1 <= (scaled(a) + scaled(b)) * pow2(0));
            lemma_nearest_at_least(x, a);
        } else if b > 0 {
            assert(scaled(b) * 1 <= (scaled(a) + scaled(b)) * pow2(0));
            lemma_nearest_at_least(x, b);
        } else {
            assert(0 * 1 == 0 && x == Exact::Ratio { num: scaled(0) * 1, den: 1 });
            lemma_representable(0, 1);
        }
    }
}

} // verus!
