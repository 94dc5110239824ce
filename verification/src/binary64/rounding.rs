//! Rounding to nearest, ties to even.
//!
//! Every magnitude up to `INFINITY` owns an interval of the real line: from
//! the midpoint between it and its predecessor to the midpoint between it
//! and its successor. A midpoint itself belongs to whichever of its two
//! neighbours is even. An exact result is rounded to the magnitude whose
//! interval holds it.

use vstd::prelude::*;
use vstd::arithmetic::power2::{pow2, lemma_pow2_pos, lemma2_to64};
use crate::binary64::encoding::{
    INFINITY, scale, scaled, spacing, lemma_increasing, lemma_spacing_grows, lemma_successor,
};
use crate::binary64::exact::Exact;

verus! {

/// Twice the midpoint between the magnitude `m` and its successor, in units
/// of `2^-1074`: the midpoint itself is `midpoint(m) / 2`.
pub open spec fn midpoint(m: u64) -> nat {
    scaled(m) + scaled((m + 1) as u64)
}

/// Whether `x` lies in the interval that the magnitude `m` owns.
pub open spec fn rounds_to(x: Exact, m: u64) -> bool {
    &&& m <= INFINITY
    &&& m > 0 ==> {
        &&& x.at_least(midpoint((m - 1) as u64), 1)
        &&& x.at_most(midpoint((m - 1) as u64), 1) ==> m % 2 == 0
    }
    &&& m < INFINITY ==> {
        &&& x.at_most(midpoint(m), 1)
        &&& x.at_least(midpoint(m), 1) ==> m % 2 == 0
    }
}

/// The magnitude nearest to `x`, the even one of two that are equally near;
/// `INFINITY` where `x` is too large for a finite one.
pub open spec fn nearest(x: Exact) -> u64 {
    choose|m: u64| rounds_to(x, m)
}

/// No number lies in the intervals of two magnitudes.
pub proof fn lemma_unique(x: Exact, a: u64, b: u64)
    requires
        x.valid(),
        rounds_to(x, a),
        rounds_to(x, b),
    ensures
        a == b,
{
    if a != b {
        let (lo, hi) = if a < b {
            (a, b)
        } else {
            (b, a)
        };
        let below = (hi - 1) as u64;
        if lo < below {
            lemma_increasing(lo, below);
            lemma_increasing((lo + 1) as u64, hi);
            x.lemma_apart(midpoint(lo), midpoint(below), 1);
        }
    }
}

/// A magnitude whose interval holds `x` is the nearest one.
pub proof fn lemma_nearest(x: Exact, m: u64)
    requires
        x.valid(),
        rounds_to(x, m),
    ensures
        nearest(x) == m,
{
    lemma_unique(x, nearest(x), m);
}

/// Some magnitude from `m` on owns the interval that holds `x`, if `x` is
/// not below the interval of `m`.
proof fn lemma_search(x: Exact, m: u64)
    requires
        x.valid(),
        m <= INFINITY,
        m > 0 ==> x.at_least(midpoint((m - 1) as u64), 1),
    ensures
        exists|r: u64| rounds_to(x, r),
    decreases INFINITY - m,
{
    if m == INFINITY {
        assert(rounds_to(x, m));
    } else if !x.at_most(midpoint(m), 1) {
        lemma_search(x, (m + 1) as u64);
    } else {
        let after = (m + 1) as u64;
        lemma_increasing(m, after);
        if m > 0 {
            let before = (m - 1) as u64;
            lemma_increasing(before, m);
            x.lemma_apart(midpoint(before), midpoint(m), 1);
            if before > 0 {
                let first = (before - 1) as u64;
                lemma_increasing(first, before);
                x.lemma_order(midpoint(first), midpoint(before), 1);
                x.lemma_apart(midpoint(first), midpoint(before), 1);
            }
        }
        if after < INFINITY {
            lemma_increasing(after, (after + 1) as u64);
            x.lemma_order(midpoint(m), midpoint(after), 1);
            x.lemma_apart(midpoint(m), midpoint(after), 1);
        }
        if m % 2 == 0 {
            assert(rounds_to(x, m));
        } else if x.at_least(midpoint(m), 1) {
            assert(rounds_to(x, after));
        } else if x.at_most(midpoint((m - 1) as u64), 1) {
            assert(rounds_to(x, (m - 1) as u64));
        } else {
            assert(rounds_to(x, m));
        }
    }
}

/// Every number has a nearest magnitude.
pub proof fn lemma_nearest_total(x: Exact)
    requires
        x.valid(),
    ensures
        rounds_to(x, nearest(x)),
{
    lemma_search(x, 0);
}

/// A number that a magnitude encodes is rounded to that magnitude.
pub proof fn lemma_representable(m: u64, den: nat)
    requires
        m <= INFINITY,
        den > 0,
    ensures
        nearest(Exact::Ratio { num: scaled(m) * den, den }) == m,
{
    let x = Exact::Ratio { num: scaled(m) * den, den };
    let v = scaled(m);
    lemma2_to64();
    if m > 0 {
        let before = (m - 1) as u64;
        lemma_increasing(before, m);
        assert(midpoint(before) * den < (v * den) * 2) by (nonlinear_arith)
            requires
                midpoint(before) < 2 * v,
                den > 0,
        ;
    }
    if m < INFINITY {
        lemma_successor(m);
        lemma_pow2_pos(scale(m));
        assert((v * den) * 2 < midpoint(m) * den) by (nonlinear_arith)
            requires
                2 * v < midpoint(m),
                den > 0,
        ;
    }
    lemma_nearest(x, m);
}

/// Rounding moves a quotient by at most half a spacing of the result.
pub proof fn lemma_half_spacing(num: nat, den: nat, m: u64)
    requires
        den > 0,
        m < INFINITY,
        rounds_to(Exact::Ratio { num, den }, m),
    ensures
        (2 * scaled(m) - spacing(m)) * den <= 2 * num <= (2 * scaled(m) + spacing(m)) * den,
{
    lemma2_to64();
    lemma_successor(m);
    let v = scaled(m);
    let s = spacing(m);
    assert(midpoint(m) == 2 * v + s);
    if m > 0 {
        let before = (m - 1) as u64;
        lemma_successor(before);
        lemma_spacing_grows(before, m);
        let low = midpoint(before);
        assert((2 * v - s) * den <= low * den) by (nonlinear_arith)
            requires
                2 * v - s <= low,
                den > 0,
        ;
    } else {
        assert(v == 0 * pow2(0));
        assert(s == 1);
        assert((2 * v - s) * den <= 0) by (nonlinear_arith)
            requires
                2 * v - s == -1,
                den > 0,
        ;
    }
}

/// Rounding moves a square root by at most half a spacing of the result.
pub proof fn lemma_half_spacing_root(square: nat, m: u64)
    requires
        m < INFINITY,
        rounds_to(Exact::Root { square }, m),
    ensures
        4 * square <= (2 * scaled(m) + spacing(m)) * (2 * scaled(m) + spacing(m)),
        2 * scaled(m) >= spacing(m) ==> (2 * scaled(m) - spacing(m)) * (2 * scaled(m) - spacing(
            m,
        )) <= 4 * square,
{
    lemma2_to64();
    lemma_successor(m);
    let v = scaled(m);
    let s = spacing(m);
    let high = midpoint(m);
    assert(high * high == (2 * v + s) * (2 * v + s)) by (nonlinear_arith)
        requires
            high == 2 * v + s,
    ;
    let x = Exact::Root { square };
    assert(pow2(2 * 1) == 4);
    assert(x.at_most(high, 1));
    assert(square * 4 <= high * high);
    if m > 0 && 2 * v >= s {
        let before = (m - 1) as u64;
        lemma_successor(before);
        lemma_spacing_grows(before, m);
        let low = midpoint(before);
        assert(x.at_least(low, 1));
        assert(low * low <= square * 4);
        assert((2 * v - s) * (2 * v - s) <= low * low) by (nonlinear_arith)
            requires
                0 <= 2 * v - s <= low,
        ;
    } else if m == 0 {
        assert(v == 0 * pow2(0));
        assert(s == 1);
    }
}

/// What is at most the number of a magnitude is rounded to at most that
/// magnitude.
pub proof fn lemma_nearest_at_most(x: Exact, bound: u64)
    requires
        x.valid(),
        bound <= INFINITY,
        x.at_most(scaled(bound), 0),
    ensures
        nearest(x) <= bound,
{
    let m = nearest(x);
    lemma_nearest_total(x);
    lemma2_to64();
    if m > bound {
        let before = (m - 1) as u64;
        if bound < before {
            lemma_increasing(bound, before);
        }
        lemma_increasing(bound, m);
        x.lemma_rescale(scaled(bound), 0, 1);
        x.lemma_apart(scaled(bound) * pow2(1), midpoint(before), 1);
    }
}

/// What is at least the number of a magnitude is rounded to at least that
/// magnitude.
pub proof fn lemma_nearest_at_least(x: Exact, bound: u64)
    requires
        x.valid(),
        bound <= INFINITY,
        x.at_least(scaled(bound), 0),
    ensures
        nearest(x) >= bound,
{
    let m = nearest(x);
    lemma_nearest_total(x);
    lemma2_to64();
    if m < bound {
        let after = (m + 1) as u64;
        if after < bound {
            lemma_increasing(after, bound);
        }
        lemma_increasing(m, bound);
        x.lemma_rescale(scaled(bound), 0, 1);
        x.lemma_apart(midpoint(m), scaled(bound) * pow2(1), 1);
    }
}

} // verus!
