//! The norm of a checked unit quaternion.
//!
//! Checked construction squares the components, sums the squares, takes
//! the square root and divides. Each step is rounded. The lemmas here add
//! the errors up and show that the sum of the squares of the resulting
//! components lies within `10^-9` of one, for components that are neither
//! so large that a square overflows nor so small that the squares lose
//! their digits.

use vstd::prelude::*;
use vstd::arithmetic::power2::{pow2, lemma_pow2_pos, lemma_pow2_adds, lemma2_to64, lemma2_to64_rest};
use crate::binary64::accuracy::{
    distance, one, power, size, lemma_power, lemma_quotient_accuracy, lemma_root_accuracy,
    lemma_square_accuracy, lemma_sum_relative,
};
use crate::binary64::encoding::{
    HIDDEN, INFINITY, is_finite, magnitude, negative, scaled, lemma_increasing, lemma_ordered,
    lemma_pow2_le,
};
use crate::binary64::product::product;
use crate::binary64::quotient::quotient;
use crate::binary64::relative::{
    PARTS, near, lemma_near_chain, lemma_near_reduced, lemma_near_scaled, lemma_near_turned,
};
use crate::binary64::root::square_root;
use crate::binary64::sum::sum;

verus! {

/// What is within `2^-53` of itself of another quantity is at most twice
/// that quantity, and within `2^-52` of that quantity of it.
proof fn lemma_relative_to_exact(t: int, e: int)
    requires
        0 <= t,
        0 <= e,
        2 * HIDDEN * distance(t, e) <= t,
    ensures
        t <= 2 * e,
        HIDDEN * distance(t, e) <= e,
{
    let d = distance(t, e);
    assert(2 * HIDDEN * d == 0x20_0000_0000_0000 * d);
    assert(HIDDEN * d == 0x10_0000_0000_0000 * d);
}

/// Three rounded sums are near the exact sum of their four terms.
proof fn lemma_three_sums(
    g1: int,
    g2: int,
    g3: int,
    g4: int,
    t1: int,
    t2: int,
    s: int,
)
    requires
        0 <= g1 && 0 <= g2 && 0 <= g3 && 0 <= g4,
        0 <= t1 && 0 <= t2 && 0 <= s,
        2 * HIDDEN * distance(t1, g1 + g2) <= t1,
        2 * HIDDEN * distance(t2, t1 + g3) <= t2,
        2 * HIDDEN * distance(s, t2 + g4) <= s,
    ensures
        near(s, g1 + g2 + g3 + g4, 1),
{
    lemma_relative_to_exact(t1, g1 + g2);
    lemma_relative_to_exact(t2, t1 + g3);
    lemma_relative_to_exact(s, t2 + g4);
}

/// Four rounded squares, each within half a unit and `2^-53` of itself of
/// the exact square, sum to nearly the sum of the exact squares, where
/// that sum is at least `2^-1000`.
///
/// `u1` to `u4` are the rounded squares times the unit and `q1` to `q4`
/// the exact squares, both in units of `2^-2148`.
proof fn lemma_four_squares(
    u1: int,
    u2: int,
    u3: int,
    u4: int,
    q1: int,
    q2: int,
    q3: int,
    q4: int,
)
    requires
        0 <= u1 && 0 <= u2 && 0 <= u3 && 0 <= u4,
        0 <= q1 && 0 <= q2 && 0 <= q3 && 0 <= q4,
        2 * HIDDEN * distance(u1, q1) <= u1 + pow2(1126),
        2 * HIDDEN * distance(u2, q2) <= u2 + pow2(1126),
        2 * HIDDEN * distance(u3, q3) <= u3 + pow2(1126),
        2 * HIDDEN * distance(u4, q4) <= u4 + pow2(1126),
        q1 + q2 + q3 + q4 >= pow2(1148),
    ensures
        near(u1 + u2 + u3 + u4, q1 + q2 + q3 + q4, 1),
{
    lemma_pow2_adds(22, 1126);
    lemma2_to64();
    let c = pow2(1126);
    assert(pow2(1148) == 0x40_0000 * c);
    let e1 = distance(u1, q1);
    let e2 = distance(u2, q2);
    let e3 = distance(u3, q3);
    let e4 = distance(u4, q4);
    assert(2 * HIDDEN * e1 == 0x20_0000_0000_0000 * e1);
    assert(2 * HIDDEN * e2 == 0x20_0000_0000_0000 * e2);
    assert(2 * HIDDEN * e3 == 0x20_0000_0000_0000 * e3);
    assert(2 * HIDDEN * e4 == 0x20_0000_0000_0000 * e4);
    let e = distance(u1 + u2 + u3 + u4, q1 + q2 + q3 + q4);
    assert(e <= e1 + e2 + e3 + e4);
    assert(PARTS * e == 0x100_0000_0000 * e);
}

/// The difference of two squares, from the difference of their roots.
///
/// `y` is a rounded quotient times the norm `n`, and `w` the dividend times
/// the unit; `nw` and `nn` bound `n * w` and `n * n`.
proof fn lemma_square_of_quotient(y: int, w: int, n: int, nw: int, nn: int)
    requires
        0 <= y,
        0 <= w,
        0 <= n,
        2 * HIDDEN * distance(y, w) <= y + HIDDEN * n,
        n * w <= nw,
        n * n <= nn,
    ensures
        HIDDEN * distance(y * y, w * w) <= 3 * (w * w) + 4 * HIDDEN * nw + HIDDEN * nn,
{
    let e = distance(y, w);
    let h = HIDDEN as int;
    assert(2 * HIDDEN * e == 0x20_0000_0000_0000 * e);
    assert(HIDDEN * n == 0x10_0000_0000_0000 * n);
    assert(h * e == 0x10_0000_0000_0000 * e);
    assert(h * n == 0x10_0000_0000_0000 * n);
    assert(h * e <= w + h * n);
    assert(e <= w + n);
    assert(distance(y * y, w * w) == e * (y + w)) by (nonlinear_arith)
        requires
            e == distance(y, w),
            0 <= y,
            0 <= w,
    {
        assert((y - w) * (y + w) == y * y - w * w);
        assert((w - y) * (y + w) == w * w - y * y);
        assert(y <= w ==> y * y <= w * w);
        assert(w <= y ==> w * w <= y * y);
    }
    assert((h * e) * (y + w) <= (w + h * n) * (3 * w + n)) by (nonlinear_arith)
        requires
            0 <= h * e <= w + h * n,
            0 <= y + w <= 3 * w + n,
    ;
    assert((w + h * n) * (3 * w + n) == 3 * (w * w) + n * w + 3 * h * (n * w) + h * (n * n))
        by (nonlinear_arith);
    assert(h * (e * (y + w)) == (h * e) * (y + w)) by (nonlinear_arith);
    assert(n * w + 3 * h * (n * w) <= 4 * h * nw) by (nonlinear_arith)
        requires
            0 <= n * w <= nw,
            h == 0x10_0000_0000_0000,
    ;
    assert(h * (n * n) <= h * nn) by (nonlinear_arith)
        requires
            n * n <= nn,
            h > 0,
    ;
}

/// The sum of the squares of four numbers, in units of `2^-2148`.
pub open spec fn squares(a1: int, a2: int, a3: int, a4: int) -> int {
    a1 * a1 + a2 * a2 + a3 * a3 + a4 * a4
}

/// Whether a word is finite and of absolute value at most `2^500`.
pub open spec fn moderate(c: u64) -> bool {
    is_finite(c) && size(magnitude(c)) <= pow2(1574)
}

/// The rounded sum of the rounded squares of four components, summed from
/// left to right.
pub open spec fn sum_of_squares(x: u64, y: u64, z: u64, w: u64) -> u64 {
    sum(sum(sum(product(x, x), product(y, y)), product(z, z)), product(w, w))
}

/// The exact sum of the squares of four components, in units of
/// `2^-2148`.
pub open spec fn exact_squares(x: u64, y: u64, z: u64, w: u64) -> int {
    squares(size(magnitude(x)), size(magnitude(y)), size(magnitude(z)), size(magnitude(w)))
}

/// The rounded square of a moderate number, as the lemmas on sums need it.
proof fn lemma_moderate_square(c: u64)
    requires
        moderate(c),
    ensures
        is_finite(product(c, c)),
        !negative(product(c, c)),
        size(product(c, c)) <= pow2(2074),
        2 * HIDDEN * distance(size(product(c, c)) * one(), size(magnitude(c)) * size(magnitude(c)))
            <= size(product(c, c)) * one() + pow2(1126),
{
    lemma_square_accuracy(c);
    lemma_power(2074);
    lemma_ordered(product(c, c), power(2074));
    lemma2_to64_rest();
    lemma_pow2_adds(52, 1074);
    let p = size(product(c, c));
    assert((p + HIDDEN) * one() == p * one() + pow2(1126)) by (nonlinear_arith)
        requires
            HIDDEN * one() == pow2(1126),
    ;
}

/// The rounded sum of the squares of moderate components is positive and
/// finite, and near the exact sum where that is at least `2^-1000`.
pub proof fn lemma_sum_of_squares(x: u64, y: u64, z: u64, w: u64)
    requires
        moderate(x) && moderate(y) && moderate(z) && moderate(w),
        exact_squares(x, y, z, w) >= pow2(1148),
    ensures
        0 < sum_of_squares(x, y, z, w) < INFINITY,
        near(size(sum_of_squares(x, y, z, w)) * one(), exact_squares(x, y, z, w), 3),
{
    lemma_moderate_square(x);
    lemma_moderate_square(y);
    lemma_moderate_square(z);
    lemma_moderate_square(w);
    let g1 = product(x, x);
    let g2 = product(y, y);
    let g3 = product(z, z);
    let g4 = product(w, w);
    lemma_power(2075);
    lemma_power(2076);
    lemma_power(2077);
    lemma_pow2_adds(1, 2074);
    lemma_pow2_adds(1, 2075);
    lemma_pow2_adds(1, 2076);
    lemma2_to64();
    lemma_sum_relative(g1, g2, power(2075));
    let t1 = sum(g1, g2);
    lemma_ordered(t1, power(2075));
    lemma_sum_relative(t1, g3, power(2076));
    let t2 = sum(t1, g3);
    lemma_ordered(t2, power(2076));
    lemma_sum_relative(t2, g4, power(2077));
    let s = sum(t2, g4);
    assert(s == sum_of_squares(x, y, z, w));
    lemma_three_sums(size(g1), size(g2), size(g3), size(g4), size(t1), size(t2), size(s));
    let unit = one();
    lemma_pow2_pos(1074);
    let total = size(g1) + size(g2) + size(g3) + size(g4);
    let exact = exact_squares(x, y, z, w);
    lemma_four_squares(
        size(g1) * unit,
        size(g2) * unit,
        size(g3) * unit,
        size(g4) * unit,
        size(magnitude(x)) * size(magnitude(x)),
        size(magnitude(y)) * size(magnitude(y)),
        size(magnitude(z)) * size(magnitude(z)),
        size(magnitude(w)) * size(magnitude(w)),
    );
    assert(total * unit == size(g1) * unit + size(g2) * unit + size(g3) * unit + size(g4) * unit)
        by (nonlinear_arith)
        requires
            total == size(g1) + size(g2) + size(g3) + size(g4),
    ;
    lemma_near_scaled(size(s), total, 1, unit);
    assert(0 <= total * unit) by (nonlinear_arith)
        requires
            0 <= total,
            0 <= unit,
    ;
    lemma_near_chain(size(s) * unit, total * unit, exact, 1, 1);
    lemma_pow2_pos(1148);
    if s == 0 {
        assert(scaled(0) == 0 * pow2(0));
        assert(size(s) * unit == 0) by (nonlinear_arith)
            requires
                size(s) == 0,
        ;
        assert(PARTS * exact == 0x100_0000_0000 * exact);
    }
}

/// The norm: the rounded square root of the rounded sum of squares.
pub open spec fn norm_of(x: u64, y: u64, z: u64, w: u64) -> u64 {
    square_root(sum_of_squares(x, y, z, w))
}

/// The norm of moderate components is positive, finite and not subnormal,
/// and its square is near the exact sum of squares where that is at least
/// `2^-1000`.
pub proof fn lemma_norm(x: u64, y: u64, z: u64, w: u64)
    requires
        moderate(x) && moderate(y) && moderate(z) && moderate(w),
        exact_squares(x, y, z, w) >= pow2(1148),
    ensures
        HIDDEN <= norm_of(x, y, z, w) < INFINITY,
        near(
            size(norm_of(x, y, z, w)) * size(norm_of(x, y, z, w)),
            exact_squares(x, y, z, w),
            6,
        ),
{
    lemma_sum_of_squares(x, y, z, w);
    let ns = sum_of_squares(x, y, z, w);
    let exact = exact_squares(x, y, z, w);
    let su = size(ns) * one();
    let d = distance(su, exact);
    assert(PARTS * d == 0x100_0000_0000 * d);
    lemma_pow2_adds(1, 104);
    lemma2_to64();
    lemma_pow2_le(105, 1148);
    lemma_root_accuracy(ns);
    let n = size(norm_of(x, y, z, w));
    let nn = n * n;
    let e = distance(nn, su);
    assert((HIDDEN / 2) * e == 0x8_0000_0000_0000 * e);
    assert(PARTS * e == 0x100_0000_0000 * e);
    assert(distance(su, nn) == e);
    assert(0 <= nn) by (nonlinear_arith)
        requires
            nn == n * n,
    ;
    assert(0 <= su) by (nonlinear_arith)
        requires
            su == size(ns) * one(),
            0 <= size(ns),
            0 <= one(),
    ;
    assert(near(su, nn, 1));
    lemma_near_turned(su, nn, 1);
    lemma_near_chain(nn, su, exact, 2, 3);
}

/// The error of the square of one rounded quotient.
///
/// `c` is a component whose square is at most `exact`, and `r` a norm
/// whose square is near `exact`.
proof fn lemma_component(c: u64, r: u64, exact: int)
    requires
        is_finite(c),
        0 < r < INFINITY,
        size(magnitude(c)) * size(magnitude(c)) <= exact,
        near(size(r) * size(r), exact, 6),
    ensures
        magnitude(quotient(c, r)) <= power(1075),
        HIDDEN * distance(
            (size(magnitude(quotient(c, r))) * size(r)) * (size(magnitude(quotient(c, r))) * size(
                r,
            )),
            (size(magnitude(c)) * one()) * (size(magnitude(c)) * one()),
        ) <= 3 * ((size(magnitude(c)) * one()) * (size(magnitude(c)) * one())) + 4 * HIDDEN * (2
            * exact * one()) + HIDDEN * (2 * exact),
{
    let a = size(magnitude(c));
    let n = size(r);
    let unit = one();
    let nn = n * n;
    let d = distance(nn, exact);
    assert(PARTS * d == 0x100_0000_0000 * d);
    assert(0 <= a * a) by (nonlinear_arith);
    assert(nn <= 2 * exact && exact <= 2 * nn);
    assert(a <= 2 * n) by (nonlinear_arith)
        requires
            a * a <= exact,
            exact <= 2 * nn,
            nn == n * n,
            0 <= a,
            0 <= n,
    {
        if a > 2 * n {
            assert(a * a >= (2 * n + 1) * (2 * n + 1));
            assert((2 * n + 1) * (2 * n + 1) == 4 * (n * n) + 4 * n + 1);
        }
    }
    lemma_quotient_accuracy(c, r);
    let q = size(magnitude(quotient(c, r)));
    let y = q * n;
    let w = a * unit;
    lemma_pow2_pos(1074);
    assert((q + HIDDEN) * n == y + HIDDEN * n) by (nonlinear_arith)
        requires
            y == q * n,
    ;
    assert(0 <= y && 0 <= w) by (nonlinear_arith)
        requires
            y == q * n,
            w == a * unit,
            0 <= q,
            0 <= n,
            0 <= a,
            0 <= unit,
    ;
    let na = n * a;
    assert(na <= 2 * exact) by (nonlinear_arith)
        requires
            na == n * a,
            a * a <= exact,
            n * n <= 2 * exact,
            0 <= a,
            0 <= n,
            0 <= exact,
    {
        assert(na * na == (n * n) * (a * a));
        assert((n * n) * (a * a) <= (2 * exact) * exact);
        if na > 2 * exact {
            assert(na * na >= (2 * exact + 1) * (2 * exact + 1));
            assert((2 * exact + 1) * (2 * exact + 1) == 4 * (exact * exact) + 4 * exact + 1);
            assert((2 * exact) * exact == 2 * (exact * exact));
            assert(exact * exact >= 0);
        }
    }
    assert(n * w <= 2 * exact * unit) by (nonlinear_arith)
        requires
            w == a * unit,
            na == n * a,
            na <= 2 * exact,
            0 <= unit,
    {
        assert(n * (a * unit) == (n * a) * unit);
        assert(na * unit <= (2 * exact) * unit);
    }
    lemma_square_of_quotient(y, w, n, 2 * exact * unit, 2 * exact);
}

/// The square of a product is the product of the squares.
proof fn lemma_square_of_product(a: int, b: int)
    ensures
        (a * b) * (a * b) == (a * a) * (b * b),
{
    assert((a * b) * (a * b) == (a * a) * (b * b)) by (nonlinear_arith);
}

/// A common factor of four terms.
proof fn lemma_four_terms(s1: int, s2: int, s3: int, s4: int, c: int)
    ensures
        (s1 + s2 + s3 + s4) * c == s1 * c + s2 * c + s3 * c + s4 * c,
{
    assert((s1 + s2 + s3 + s4) * c == s1 * c + s2 * c + s3 * c + s4 * c) by (nonlinear_arith);
}

/// The sum of the squares of four components, each divided by the norm of
/// the four, lies within nine parts in `2^40` of one: for moderate
/// components whose exact sum of squares is at least `2^-1000`.
pub proof fn lemma_unit_norm(x: u64, y: u64, z: u64, w: u64)
    requires
        moderate(x) && moderate(y) && moderate(z) && moderate(w),
        exact_squares(x, y, z, w) >= pow2(1148),
    ensures
        HIDDEN <= norm_of(x, y, z, w) < INFINITY,
        is_finite(quotient(x, norm_of(x, y, z, w))),
        is_finite(quotient(y, norm_of(x, y, z, w))),
        is_finite(quotient(z, norm_of(x, y, z, w))),
        is_finite(quotient(w, norm_of(x, y, z, w))),
        near(
            squares(
                size(magnitude(quotient(x, norm_of(x, y, z, w)))),
                size(magnitude(quotient(y, norm_of(x, y, z, w)))),
                size(magnitude(quotient(z, norm_of(x, y, z, w)))),
                size(magnitude(quotient(w, norm_of(x, y, z, w)))),
            ),
            one() * one(),
            9,
        ),
{
    lemma_norm(x, y, z, w);
    let r = norm_of(x, y, z, w);
    let exact = exact_squares(x, y, z, w);
    let n = size(r);
    let unit = one();
    let a1 = size(magnitude(x));
    let a2 = size(magnitude(y));
    let a3 = size(magnitude(z));
    let a4 = size(magnitude(w));
    assert(0 <= a1 * a1 && 0 <= a2 * a2 && 0 <= a3 * a3 && 0 <= a4 * a4) by (nonlinear_arith);
    lemma_component(x, r, exact);
    lemma_component(y, r, exact);
    lemma_component(z, r, exact);
    lemma_component(w, r, exact);
    lemma_power(1075);
    let q1 = size(magnitude(quotient(x, r)));
    let q2 = size(magnitude(quotient(y, r)));
    let q3 = size(magnitude(quotient(z, r)));
    let q4 = size(magnitude(quotient(w, r)));
    let y1 = (q1 * n) * (q1 * n);
    let y2 = (q2 * n) * (q2 * n);
    let y3 = (q3 * n) * (q3 * n);
    let y4 = (q4 * n) * (q4 * n);
    let w1 = (a1 * unit) * (a1 * unit);
    let w2 = (a2 * unit) * (a2 * unit);
    let w3 = (a3 * unit) * (a3 * unit);
    let w4 = (a4 * unit) * (a4 * unit);
    let uu = unit * unit;
    let nn = n * n;
    let got = squares(q1, q2, q3, q4);
    lemma_square_of_product(q1, n);
    lemma_square_of_product(q2, n);
    lemma_square_of_product(q3, n);
    lemma_square_of_product(q4, n);
    lemma_four_terms(q1 * q1, q2 * q2, q3 * q3, q4 * q4, nn);
    assert(y1 + y2 + y3 + y4 == got * nn);
    lemma_square_of_product(a1, unit);
    lemma_square_of_product(a2, unit);
    lemma_square_of_product(a3, unit);
    lemma_square_of_product(a4, unit);
    lemma_four_terms(a1 * a1, a2 * a2, a3 * a3, a4 * a4, uu);
    assert(w1 + w2 + w3 + w4 == exact * uu);
    let big = exact * uu;
    let all = y1 + y2 + y3 + y4;
    let e1 = distance(y1, w1);
    let e2 = distance(y2, w2);
    let e3 = distance(y3, w3);
    let e4 = distance(y4, w4);
    let e = distance(all, big);
    assert(e <= e1 + e2 + e3 + e4);
    lemma_pow2_pos(1074);
    lemma_pow2_adds(58, 1016);
    lemma2_to64_rest();
    let side = 4 * HIDDEN * (2 * exact * unit) + HIDDEN * (2 * exact);
    assert(4 * side <= big) by (nonlinear_arith)
        requires
            side == 4 * HIDDEN * (2 * exact * unit) + HIDDEN * (2 * exact),
            big == exact * uu,
            uu == unit * unit,
            unit >= 0x400_0000_0000_0000,
            HIDDEN == 0x10_0000_0000_0000,
            0 <= exact,
    {
        assert(side == exact * (0x80_0000_0000_0000 * unit + 0x20_0000_0000_0000));
        assert(4 * (0x80_0000_0000_0000 * unit + 0x20_0000_0000_0000) <= unit * unit);
        assert(exact * (4 * (0x80_0000_0000_0000 * unit + 0x20_0000_0000_0000)) <= exact * (unit
            * unit));
    }
    assert(HIDDEN * e1 == 0x10_0000_0000_0000 * e1);
    assert(HIDDEN * e2 == 0x10_0000_0000_0000 * e2);
    assert(HIDDEN * e3 == 0x10_0000_0000_0000 * e3);
    assert(HIDDEN * e4 == 0x10_0000_0000_0000 * e4);
    assert(PARTS * e == 0x100_0000_0000 * e);
    assert(0 <= w1 && 0 <= w2 && 0 <= w3 && 0 <= w4) by (nonlinear_arith)
        requires
            w1 == (a1 * unit) * (a1 * unit),
            w2 == (a2 * unit) * (a2 * unit),
            w3 == (a3 * unit) * (a3 * unit),
            w4 == (a4 * unit) * (a4 * unit),
    ;
    assert(near(all, big, 1));
    // The square of the norm, in the same units.
    assert(0 <= uu) by (nonlinear_arith)
        requires
            uu == unit * unit,
    ;
    assert(0 <= nn) by (nonlinear_arith)
        requires
            nn == n * n,
    ;
    lemma_near_scaled(nn, exact, 6, uu);
    assert(0 <= nn * uu && 0 <= big) by (nonlinear_arith)
        requires
            0 <= nn,
            0 <= uu,
            0 <= exact,
            big == exact * uu,
    ;
    lemma_near_turned(nn * uu, big, 6);
    lemma_near_chain(all, big, nn * uu, 1, 7);
    assert(nn * uu == uu * nn) by (nonlinear_arith);
    lemma_increasing(0, r);
    assert(0 < nn) by (nonlinear_arith)
        requires
            nn == n * n,
            0 < n,
    ;
    lemma_near_reduced(got, uu, 9, nn);
}

} // verus!
