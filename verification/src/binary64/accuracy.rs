//! How far a rounded result lies from the exact one.
//!
//! A finite binary64 value is an integer number of units of `2^-1074`. The
//! lemmas here bound, in those units, the distance between what an
//! operation returns and what exact arithmetic on those integers gives.

use vstd::prelude::*;
use vstd::arithmetic::power2::{pow2, lemma_pow2_pos, lemma_pow2_adds, lemma2_to64, lemma2_to64_rest};
use crate::binary64::encoding::{
    HIDDEN, INFINITY, exponent, fraction, is_finite, magnitude, negative, scale, scaled,
    significand, spacing, lemma_increasing, lemma_scaled_infinity, lemma_spacing_grows,
};
use crate::binary64::exact::Exact;
use crate::binary64::product::product;
use crate::binary64::quotient::quotient;
use crate::binary64::root::square_root;
use crate::binary64::rounding::{
    nearest, lemma_half_spacing, lemma_half_spacing_root, lemma_nearest_at_least,
    lemma_nearest_at_most, lemma_nearest_total,
};
use crate::binary64::sum::{difference, opposite, sum};

verus! {

/// The number that a finite word encodes, in units of `2^-1074`.
pub open spec fn value(bits: u64) -> int {
    if negative(bits) {
        -(scaled(magnitude(bits)) as int)
    } else {
        scaled(magnitude(bits)) as int
    }
}

/// The distance between two integers.
pub open spec fn distance(a: int, b: int) -> int {
    if a <= b {
        b - a
    } else {
        a - b
    }
}

/// The magnitude of the power of two `2^k * 2^-1074`, for `k` from 52 up.
pub open spec fn power(k: nat) -> u64 {
    ((k - 51) * HIDDEN) as u64
}

/// `power(k)` encodes `2^k` units, and its spacing is `2^(k - 52)` units.
pub proof fn lemma_power(k: nat)
    requires
        52 <= k <= 2098,
    ensures
        power(k) <= INFINITY,
        scaled(power(k)) == pow2(k),
        spacing(power(k)) == pow2((k - 52) as nat),
{
    let m = power(k);
    assert((k - 51) * HIDDEN <= 2047 * HIDDEN) by (nonlinear_arith)
        requires
            k - 51 <= 2047,
    ;
    assert(exponent(m) == k - 51) by (nonlinear_arith)
        requires
            m == (k - 51) * HIDDEN,
            exponent(m) == m / HIDDEN,
            HIDDEN == 0x0010_0000_0000_0000,
    ;
    assert(fraction(m) == 0) by (nonlinear_arith)
        requires
            m == (k - 51) * HIDDEN,
            fraction(m) == m % HIDDEN,
            HIDDEN == 0x0010_0000_0000_0000,
    ;
    lemma2_to64_rest();
    lemma_pow2_adds(52, (k - 52) as nat);
}

/// The sum of two finite numbers whose exact sum is at most the number of
/// the magnitude `bound` is at most that magnitude, and differs from the
/// exact sum by at most half the spacing at `bound`.
pub proof fn lemma_sum_accuracy(a: u64, b: u64, bound: u64)
    requires
        is_finite(a),
        is_finite(b),
        bound < INFINITY,
        distance(0, value(a) + value(b)) <= scaled(bound),
    ensures
        magnitude(sum(a, b)) <= bound,
        2 * distance(value(sum(a, b)), value(a) + value(b)) <= spacing(bound),
{
    let ma = magnitude(a);
    let mb = magnitude(b);
    let s = sum(a, b);
    assert(scaled(0) == 0 * pow2(0));
    if negative(a) != negative(b) && ma == mb {
    } else {
        let num: nat = if negative(a) == negative(b) {
            scaled(ma) + scaled(mb)
        } else if ma > mb {
            (scaled(ma) - scaled(mb)) as nat
        } else {
            (scaled(mb) - scaled(ma)) as nat
        };
        if ma > mb {
            lemma_increasing(mb, ma);
        } else if mb > ma {
            lemma_increasing(ma, mb);
        }
        let x = Exact::Ratio { num, den: 1 };
        lemma2_to64();
        lemma_nearest_total(x);
        lemma_nearest_at_most(x, bound);
        let m = nearest(x);
        lemma_half_spacing(num, 1, m);
        lemma_spacing_grows(m, bound);
        assert(magnitude(s) == m);
    }
    lemma_pow2_pos(scale(bound));
}

/// The product of two finite numbers of absolute value at most `2^ka` and
/// `2^kb` units is of absolute value at most `2^(ka + kb - 1074)` units.
pub proof fn lemma_product_bounded(a: u64, b: u64, ka: nat, kb: nat)
    requires
        is_finite(a),
        is_finite(b),
        scaled(magnitude(a)) <= pow2(ka),
        scaled(magnitude(b)) <= pow2(kb),
        1126 <= ka + kb <= 3171,
    ensures
        magnitude(product(a, b)) <= power((ka + kb - 1074) as nat),
        power((ka + kb - 1074) as nat) < INFINITY,
{
    let k = (ka + kb - 1074) as nat;
    let va = scaled(magnitude(a));
    let vb = scaled(magnitude(b));
    let x = Exact::Ratio { num: va * vb, den: pow2(1074) };
    lemma_power(k);
    lemma_pow2_adds(ka, kb);
    lemma_pow2_adds(k, 1074);
    lemma_pow2_pos(1074);
    lemma2_to64();
    assert(va * vb <= pow2(ka) * pow2(kb)) by (nonlinear_arith)
        requires
            0 <= va <= pow2(ka),
            0 <= vb <= pow2(kb),
    ;
    lemma_nearest_at_most(x, power(k));
    assert((k - 51) * HIDDEN < 2047 * HIDDEN) by (nonlinear_arith)
        requires
            k - 51 < 2047,
    ;
}

/// The opposite of a finite number has the opposite value.
pub proof fn lemma_opposite(b: u64)
    requires
        is_finite(b),
    ensures
        is_finite(opposite(b)),
        value(opposite(b)) == -value(b),
        magnitude(opposite(b)) == magnitude(b),
{
}

/// As [`lemma_sum_accuracy`], for the difference.
pub proof fn lemma_difference_accuracy(a: u64, b: u64, bound: u64)
    requires
        is_finite(a),
        is_finite(b),
        bound < INFINITY,
        distance(0, value(a) - value(b)) <= scaled(bound),
    ensures
        magnitude(difference(a, b)) <= bound,
        2 * distance(value(difference(a, b)), value(a) - value(b)) <= spacing(bound),
{
    lemma_opposite(b);
    lemma_sum_accuracy(a, opposite(b), bound);
}

/// The spacing of a finite magnitude is one unit, or at most `2^-52` of
/// the number.
pub proof fn lemma_spacing_relative(m: u64)
    requires
        m < INFINITY,
    ensures
        spacing(m) == 1 || HIDDEN * spacing(m) <= scaled(m),
        m >= HIDDEN ==> HIDDEN * spacing(m) <= scaled(m),
{
    lemma2_to64();
    if exponent(m) > 0 {
        let sp = spacing(m);
        assert(HIDDEN * sp <= significand(m) * sp) by (nonlinear_arith)
            requires
                HIDDEN <= significand(m),
                sp >= 0,
        ;
    }
}

/// The unit: the number one, in units of `2^-1074`.
pub open spec fn one() -> int {
    pow2(1074) as int
}

/// The number that a magnitude encodes, in units of `2^-1074`.
pub open spec fn size(m: u64) -> int {
    scaled(m) as int
}

/// The rounded square of a finite number of absolute value at most
/// `2^500` is finite, and lies within half a unit and `2^-53` of itself of
/// the exact square.
pub proof fn lemma_square_accuracy(c: u64)
    requires
        is_finite(c),
        scaled(magnitude(c)) <= pow2(1574),
    ensures
        !negative(product(c, c)),
        magnitude(product(c, c)) <= power(2074),
        2 * HIDDEN * distance(
            size(magnitude(product(c, c))) * one(),
            size(magnitude(c)) * size(magnitude(c)),
        ) <= (size(magnitude(product(c, c))) + HIDDEN) * one(),
{
    let a = scaled(magnitude(c));
    let unit = pow2(1074);
    let x = Exact::Ratio { num: a * a, den: unit };
    lemma_pow2_pos(1074);
    lemma2_to64();
    lemma_power(2074);
    lemma_pow2_adds(1574, 1574);
    lemma_pow2_adds(2074, 1074);
    let top = pow2(1574);
    assert(a * a <= top * top) by (nonlinear_arith)
        requires
            0 <= a <= top,
    ;
    lemma_nearest_total(x);
    lemma_nearest_at_most(x, power(2074));
    let m = nearest(x);
    let p = scaled(m);
    let sp = spacing(m);
    lemma_half_spacing(a * a, unit, m);
    lemma_spacing_relative(m);
    let e = distance((p * unit) as int, (a * a) as int);
    assert(2 * e <= sp * unit) by (nonlinear_arith)
        requires
            (2 * p - sp) * unit <= 2 * (a * a) <= (2 * p + sp) * unit,
            e == distance((p * unit) as int, (a * a) as int),
    ;
    assert(HIDDEN * (sp * unit) <= (p + HIDDEN) * unit) by (nonlinear_arith)
        requires
            sp == 1 || HIDDEN * sp <= p,
            unit >= 0,
            p >= 0,
    ;
    assert(2 * HIDDEN * e <= HIDDEN * (sp * unit)) by (nonlinear_arith)
        requires
            2 * e <= sp * unit,
    ;
}

/// The sum of two finite numbers that are not negative, whose exact sum
/// is at most the number of the magnitude `bound`, is at most that
/// magnitude, and lies within `2^-53` of itself of the exact sum.
pub proof fn lemma_sum_relative(a: u64, b: u64, bound: u64)
    requires
        is_finite(a) && !negative(a),
        is_finite(b) && !negative(b),
        bound < INFINITY,
        scaled(a) + scaled(b) <= scaled(bound),
    ensures
        sum(a, b) <= bound,
        2 * HIDDEN * distance(size(sum(a, b)), size(a) + size(b)) <= size(sum(a, b)),
{
    let num = scaled(a) + scaled(b);
    let x = Exact::Ratio { num, den: 1 };
    lemma2_to64();
    lemma_nearest_total(x);
    lemma_nearest_at_most(x, bound);
    let m = nearest(x);
    lemma_half_spacing(num, 1, m);
    lemma_spacing_relative(m);
    let e = distance(scaled(m) as int, num as int);
    let sp = spacing(m);
    assert(2 * e <= sp);
    assert(2 * HIDDEN * e <= scaled(m)) by (nonlinear_arith)
        requires
            2 * e <= sp,
            sp == 1 || HIDDEN * sp <= scaled(m),
            0 <= e,
    ;
}

/// The square root of a positive finite number that is at least `2^-970`
/// is finite and at least `2^-1022`, and its square lies within `2^-51` of
/// itself of the number.
pub proof fn lemma_root_accuracy(s: u64)
    requires
        0 < s < INFINITY,
        size(s) * one() >= pow2(104),
    ensures
        HIDDEN <= square_root(s) < INFINITY,
        (HIDDEN / 2) * distance(size(square_root(s)) * size(square_root(s)), size(s) * one())
            <= size(square_root(s)) * size(square_root(s)),
{
    let square = scaled(s) * pow2(1074);
    let x = Exact::Root { square };
    lemma2_to64();
    lemma2_to64_rest();
    lemma_nearest_total(x);
    lemma_power(1586);
    lemma_power(52);
    lemma_pow2_adds(1586, 1586);
    lemma_pow2_adds(52, 52);
    lemma_pow2_adds(2098, 1074);
    lemma_scaled_infinity();
    lemma_increasing(s, INFINITY);
    assert(scaled(s) * pow2(1074) <= pow2(2098) * pow2(1074)) by (nonlinear_arith)
        requires
            scaled(s) <= pow2(2098),
            pow2(1074) >= 0,
    ;
    assert(square * pow2(0) == square) by (nonlinear_arith)
        requires
            pow2(0) == 1,
    ;
    lemma_nearest_at_most(x, power(1586));
    lemma_nearest_at_least(x, power(52));
    let m = nearest(x);
    assert(power(52) == HIDDEN);
    assert(power(1586) < INFINITY);
    lemma_half_spacing_root(square, m);
    lemma_spacing_relative(m);
    let n = scaled(m) as int;
    let h = spacing(m) as int;
    let half = (HIDDEN / 2) as int;
    assert(half * distance(n * n, square as int) <= n * n) by (nonlinear_arith)
        requires
            4 * square <= (2 * n + h) * (2 * n + h),
            (2 * n - h) * (2 * n - h) <= 4 * square,
            2 * half * h <= n,
            half == 0x8_0000_0000_0000,
            0 <= h,
            0 <= n,
            0 <= square,
    {
        assert((2 * n + h) * (2 * n + h) == 4 * (n * n) + 4 * (n * h) + h * h);
        assert((2 * n - h) * (2 * n - h) == 4 * (n * n) - 4 * (n * h) + h * h);
        assert((2 * half) * (n * h) <= n * n) by {
            assert((2 * half * h) * n <= n * n);
        }
        assert(h * h <= n * h) by {
            assert(h <= n);
        }
    }
}

/// The quotient of a finite number by a positive finite number that is at
/// least half its absolute value is finite, and its product with the
/// divisor lies within half a unit and `2^-53` of the quotient, times the
/// divisor, of the dividend.
pub proof fn lemma_quotient_accuracy(c: u64, r: u64)
    requires
        is_finite(c),
        0 < r < INFINITY,
        scaled(magnitude(c)) <= 2 * scaled(r),
    ensures
        magnitude(quotient(c, r)) <= power(1075),
        2 * HIDDEN * distance(
            size(magnitude(quotient(c, r))) * size(r),
            size(magnitude(c)) * one(),
        ) <= (size(magnitude(quotient(c, r))) + HIDDEN) * size(r),
{
    let a = scaled(magnitude(c));
    let n = scaled(r);
    let unit = pow2(1074);
    let x = Exact::Ratio { num: a * unit, den: n };
    lemma_increasing(0, r);
    lemma2_to64();
    lemma_power(1075);
    lemma_pow2_adds(1, 1074);
    assert((a * unit) * pow2(0) <= pow2(1075) * n) by (nonlinear_arith)
        requires
            a <= 2 * n,
            pow2(1075) == 2 * unit,
            pow2(0) == 1,
            unit >= 0,
    ;
    lemma_nearest_total(x);
    lemma_nearest_at_most(x, power(1075));
    let m = nearest(x);
    let q = scaled(m);
    let sp = spacing(m);
    lemma_half_spacing(a * unit, n, m);
    lemma_spacing_relative(m);
    let e = distance((q * n) as int, (a * unit) as int);
    assert(2 * e <= sp * n) by (nonlinear_arith)
        requires
            (2 * q - sp) * n <= 2 * (a * unit) <= (2 * q + sp) * n,
            e == distance((q * n) as int, (a * unit) as int),
    ;
    assert(HIDDEN * (sp * n) <= (q + HIDDEN) * n) by (nonlinear_arith)
        requires
            sp == 1 || HIDDEN * sp <= q,
            n >= 0,
            q >= 0,
    ;
    assert(2 * HIDDEN * e <= HIDDEN * (sp * n)) by (nonlinear_arith)
        requires
            2 * e <= sp * n,
    ;
}

} // verus!
