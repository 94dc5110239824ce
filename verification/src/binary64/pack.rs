//! From an exact result to the magnitude that rounds it.
//!
//! An operation hands its exact result over as a count `n` on a fine grid,
//! with an exponent `e` and a flag that says whether the result is larger
//! than the count: the result is at least `n * 2^e` grid steps and less
//! than `(n + 1) * 2^e`. A grid step is `2^-1200` units, so that no
//! exponent is negative; a quarter unit is `2^1198` steps. [`round`] shifts
//! the count until two bits lie below the significand of the result, and
//! rounds on those two bits and the flag.

use vstd::prelude::*;
use vstd::arithmetic::power2::{pow2, lemma_pow2_pos, lemma_pow2_adds, lemma2_to64, lemma2_to64_rest};
use vstd::arithmetic::div_mod::{lemma_basic_div, lemma_fundamental_div_mod, lemma_small_mod};
use crate::binary64::encoding::{
    HIDDEN, INFINITY, scaled, spacing, lemma_assemble, lemma_increasing, lemma_pow2_le,
    lemma_scaled_infinity, lemma_successor,
};
use crate::binary64::exact::Exact;
use crate::binary64::rounding::{midpoint, nearest, rounds_to, lemma_nearest};
use crate::binary64::wide::{length, lemma_length, bit_length, shift_left, shift_right};

verus! {

/// The magnitude for a result known to a quarter of a spacing.
///
/// `quarters * 2^by` counts quarter units: the low two bits of `quarters`
/// lie below the significand. `inexact` says that the result is larger than
/// that count, though smaller than the next.
pub open spec fn packed(quarters: nat, by: nat, inexact: bool) -> u64 {
    let below = (quarters / 4 + by * HIDDEN) as u64;
    let rest = quarters % 4;
    if rest == 3 || (rest == 2 && (inexact || below % 2 == 1)) {
        (below + 1) as u64
    } else {
        below
    }
}

/// `packed` rounds correctly.
pub proof fn lemma_packed(x: Exact, quarters: nat, by: nat, inexact: bool)
    requires
        x.valid(),
        quarters < 8 * HIDDEN,
        by <= 2045,
        by > 0 ==> quarters >= 4 * HIDDEN,
        x.at_least(quarters * pow2(by), 2),
        !x.at_least((quarters + 1) * pow2(by), 2),
        inexact <==> !x.at_most(quarters * pow2(by), 2),
    ensures
        rounds_to(x, packed(quarters, by, inexact)),
{
    let a = quarters / 4;
    let rest = quarters % 4;
    let lo = (a + by * HIDDEN) as u64;
    let p = pow2(by);
    let ap = a * p;
    lemma_pow2_pos(by);
    lemma2_to64();
    lemma_assemble(a as u64, by as u64);
    lemma_successor(lo);
    assert(scaled(lo) == ap);
    assert(spacing(lo) == p);
    assert(midpoint(lo) == 2 * ap + p);
    assert(quarters * p == 4 * ap + rest * p) by (nonlinear_arith)
        requires
            quarters == 4 * a + rest,
            ap == a * p,
    ;
    assert((quarters + 1) * p == 4 * ap + rest * p + p) by (nonlinear_arith)
        requires
            quarters == 4 * a + rest,
            ap == a * p,
    ;
    assert(rest * p == if rest == 0 {
        0
    } else if rest == 1 {
        p
    } else if rest == 2 {
        2 * p
    } else {
        3 * p
    }) by (nonlinear_arith)
        requires
            0 <= rest < 4,
    ;
    // Half units and quarter units.
    x.lemma_rescale(midpoint(lo), 1, 1);
    assert(midpoint(lo) * pow2(1) == 4 * ap + 2 * p);
    if lo > 0 {
        let before = (lo - 1) as u64;
        lemma_increasing(before, lo);
        x.lemma_rescale(midpoint(before), 1, 1);
        x.lemma_order(midpoint(before) * pow2(1), quarters * p, 2);
        x.lemma_apart(midpoint(before) * pow2(1), quarters * p, 2);
    }
    if lo + 1 < INFINITY {
        let after = (lo + 1) as u64;
        lemma_increasing(after, (lo + 2) as u64);
        x.lemma_rescale(midpoint(after), 1, 1);
        x.lemma_order((quarters + 1) * p, midpoint(after) * pow2(1), 2);
    }
    if rest <= 1 {
        x.lemma_order((quarters + 1) * p, 4 * ap + 2 * p, 2);
    } else if rest == 3 {
        x.lemma_order(4 * ap + 2 * p, quarters * p, 2);
        x.lemma_apart(4 * ap + 2 * p, quarters * p, 2);
    }
}

/// The exponent of the grid on which an exact result is handed over for
/// rounding: the count `n` with the exponent `e` stands for
/// `n * 2^e / 2^GRID` units.
pub const GRID: u32 = 1200;

/// Where `n * 2^e / 2^GRID` lies relative to `x`: `x` is at least that much
/// and less than the next count, and larger exactly if `inexact`.
pub open spec fn brackets(x: Exact, n: nat, e: nat, inexact: bool) -> bool {
    &&& x.at_least(n * pow2(e), GRID as nat)
    &&& !x.at_least((n + 1) * pow2(e), GRID as nat)
    &&& inexact <==> !x.at_most(n * pow2(e), GRID as nat)
}

/// The bracket of a quotient, from an inequality between integers.
pub proof fn lemma_brackets_ratio(num: nat, den: nat, n: nat, e: nat, inexact: bool)
    requires
        den > 0,
        n * (pow2(e) * den) <= num * pow2(1200) < (n + 1) * (pow2(e) * den),
        inexact <==> n * (pow2(e) * den) != num * pow2(1200),
    ensures
        brackets(Exact::Ratio { num, den }, n, e, inexact),
{
    let pe = pow2(e);
    assert((n * pe) * den == n * (pe * den) && ((n + 1) * pe) * den == (n + 1) * (pe * den))
        by (nonlinear_arith);
}

/// The bracket of a square root, from an inequality between integers.
pub proof fn lemma_brackets_root(square: nat, n: nat, e: nat, inexact: bool)
    requires
        (n * pow2(e)) * (n * pow2(e)) <= square * pow2(2400),
        square * pow2(2400) < ((n + 1) * pow2(e)) * ((n + 1) * pow2(e)),
        inexact <==> (n * pow2(e)) * (n * pow2(e)) != square * pow2(2400),
    ensures
        brackets(Exact::Root { square }, n, e, inexact),
{
}

/// The scale of the magnitude below a result whose count has `l` bits and
/// the exponent `e`: the exponent that the count has in quarter units once
/// it is cut to fifty-five bits, and zero where that would be negative.
pub open spec fn scale_for(e: nat, l: nat) -> nat {
    if e + l > 1253 {
        (e + l - 1253) as nat
    } else {
        0
    }
}

/// Bounds on a quotient by a power of two.
proof fn lemma_quotient_bounds(n: nat, r: nat, low: nat, high: nat)
    ensures
        pow2(low + r) <= n ==> pow2(low) <= n / pow2(r),
        n < pow2(high + r) ==> n / pow2(r) < pow2(high),
{
    let d = pow2(r);
    let q = n / d;
    let rem = n % d;
    lemma_pow2_pos(r);
    lemma_fundamental_div_mod(n as int, d as int);
    lemma_pow2_adds(low, r);
    lemma_pow2_adds(high, r);
    let a = pow2(low);
    let b = pow2(high);
    assert(a * d <= n ==> a <= q) by (nonlinear_arith)
        requires
            n == d * q + rem,
            0 <= rem < d,
            0 <= a,
            0 <= q,
    ;
    assert(n < b * d ==> q < b) by (nonlinear_arith)
        requires
            n == d * q + rem,
            0 <= rem < d,
            0 <= b,
            0 <= q,
    ;
}

/// Shifting the count to the scale of the result keeps the bracket.
proof fn lemma_shifted(x: Exact, n: nat, e: nat, inexact: bool, k: nat, s: nat, st: bool)
    requires
        x.valid(),
        n > 0,
        inexact ==> n >= pow2(54),
        brackets(x, n, e, inexact),
        k == scale_for(e, length(n)),
        k + 1198 >= e ==> s == n / pow2((k + 1198 - e) as nat) && st == (inexact || n % pow2(
            (k + 1198 - e) as nat,
        ) != 0),
        k + 1198 < e ==> s == n * pow2((e - k - 1198) as nat) && !st,
    ensures
        s < 8 * HIDDEN,
        k > 0 ==> s >= 4 * HIDDEN,
        x.at_least(s * pow2(k), 2),
        !x.at_least((s + 1) * pow2(k), 2),
        st <==> !x.at_most(s * pow2(k), 2),
{
    let l = length(n);
    let pe = pow2(e);
    let big = pow2(k + 1198);
    lemma_length(n);
    lemma2_to64_rest();
    lemma_pow2_pos(e);
    lemma_pow2_pos(k + 1198);
    if l < 55 {
        lemma_pow2_le(l, 54);
    }
    if k + 1198 >= e {
        let r = (k + 1198 - e) as nat;
        let pr = pow2(r);
        let rem = n % pr;
        lemma_pow2_pos(r);
        lemma_pow2_adds(r, e);
        lemma_fundamental_div_mod(n as int, pr as int);
        assert(s * big <= n * pe && (n + 1) * pe <= (s + 1) * big && (rem == 0 ==> s * big == n
            * pe) && (rem != 0 ==> s * big < n * pe)) by (nonlinear_arith)
            requires
                n == pr * s + rem,
                0 <= rem < pr,
                big == pr * pe,
                pe > 0,
        ;
        x.lemma_order(s * big, n * pe, 1200);
        x.lemma_order((n + 1) * pe, (s + 1) * big, 1200);
        if rem != 0 {
            x.lemma_apart(s * big, n * pe, 1200);
        }
        lemma_pow2_le(l, r + 55);
        lemma_quotient_bounds(n, r, 54, 55);
    } else {
        let t = (e - k - 1198) as nat;
        let pt = pow2(t);
        lemma_pow2_adds(t, k + 1198);
        assert(s * big == n * pe) by (nonlinear_arith)
            requires
                s == n * pt,
                pe == pt * big,
        ;
        assert(s * big < (s + 1) * big) by (nonlinear_arith)
            requires
                big > 0,
        ;
        x.lemma_apart(s * big, (s + 1) * big, 1200);
        lemma_pow2_adds(l, t);
        lemma_pow2_le(l + t, 55);
        lemma_pow2_pos(t);
        assert(n * pt < pow2(l) * pt) by (nonlinear_arith)
            requires
                n < pow2(l),
                pt > 0,
        ;
        if k > 0 {
            lemma_pow2_adds((l - 1) as nat, t);
            assert(pow2((l - 1) as nat) * pt <= n * pt) by (nonlinear_arith)
                requires
                    pow2((l - 1) as nat) <= n,
                    pt > 0,
            ;
        }
    }
    lemma_pow2_adds(k, 1198);
    let pk = pow2(k);
    let fine = pow2(1198);
    assert((s * pk) * fine == s * big && ((s + 1) * pk) * fine == (s + 1) * big)
        by (nonlinear_arith)
        requires
            big == pk * fine,
    ;
    x.lemma_rescale(s * pk, 2, 1198);
    x.lemma_rescale((s + 1) * pk, 2, 1198);
}

/// Rounds the exact result `x`, handed over as a count on the grid.
///
/// The count must have at least fifty-five bits where it is inexact, so
/// that two bits lie below every significand it can round to.
pub(crate) fn round(n: u128, e: u32, inexact: bool, Ghost(x): Ghost<Exact>) -> (m: u64)
    requires
        x.valid(),
        e <= 8000,
        inexact ==> n >= pow2(54),
        brackets(x, n as nat, e as nat, inexact),
    ensures
        rounds_to(x, m),
        m == nearest(x),
{
    if n == 0 {
        proof {
            lemma2_to64();
            lemma_pow2_pos(54);
            assert(scaled(0) == 0 * pow2(0));
            assert(midpoint(0) == 1);
            assert(n * pow2(e as nat) == 0) by (nonlinear_arith)
                requires
                    n == 0,
            ;
            assert(0 * pow2(1199) == 0) by (nonlinear_arith);
            x.lemma_rescale(0, 1, 1199);
            x.lemma_order(0, 1, 1);
            x.lemma_apart(0, 1, 1);
            assert(scaled(1) == 1 * pow2(0));
            lemma_nearest(x, 0);
        }
        return 0;
    }
    let l = bit_length(n);
    let total = e + l;
    // Too large for the largest finite scale.
    if total > 1253 + 2045 {
        proof {
            lemma_length(n as nat);
            lemma_scaled_infinity();
            lemma_pow2_adds(2098, 1200);
            lemma_pow2_adds((l - 1) as nat, e as nat);
            lemma_pow2_le(3298, (l - 1 + e) as nat);
            lemma_pow2_pos(e as nat);
            let pe = pow2(e as nat);
            let count = n as nat;
            assert(pow2((l - 1) as nat) * pe <= count * pe) by (nonlinear_arith)
                requires
                    pow2((l - 1) as nat) <= count,
                    pe > 0,
            ;
            let top = scaled(INFINITY);
            x.lemma_order(top * pow2(1200), count * pe, 1200);
            x.lemma_rescale(top, 0, 1200);
            x.lemma_rescale(top, 0, 1);
            lemma2_to64();
            lemma_increasing((INFINITY - 1) as u64, INFINITY);
            x.lemma_order(midpoint((INFINITY - 1) as u64), top * pow2(1), 1);
            lemma_nearest(x, INFINITY);
        }
        return INFINITY;
    }
    let k: u32 = if total > 1253 {
        total - 1253
    } else {
        0
    };
    // The count in quarter units of the scale `k`, and what was lost.
    let (s, st) = if k + 1198 >= e {
        let r = k + 1198 - e;
        if r >= 128 {
            proof {
                lemma_length(n as nat);
                lemma_pow2_le(l as nat, r as nat);
                lemma_pow2_pos(r as nat);
                lemma_small_mod(n as nat, pow2(r as nat));
                lemma_basic_div(n as int, pow2(r as nat) as int);
            }
            (0u128, true)
        } else {
            let (kept, lost) = shift_right(n, r);
            (kept, inexact || lost)
        }
    } else {
        proof {
            lemma_length(n as nat);
            lemma2_to64_rest();
            if l < 55 {
                lemma_pow2_le(l as nat, 54);
            }
            let t = (e - k - 1198) as nat;
            lemma_pow2_adds(l as nat, t);
            lemma_pow2_le(l as nat + t, 55);
            lemma_pow2_pos(t);
            assert(n * pow2(t) < pow2(l as nat) * pow2(t)) by (nonlinear_arith)
                requires
                    n < pow2(l as nat),
                    pow2(t) > 0,
            ;
        }
        (shift_left(n, e - k - 1198), false)
    };
    proof {
        lemma_shifted(x, n as nat, e as nat, inexact, k as nat, s as nat, st);
        lemma_packed(x, s as nat, k as nat, st);
        lemma_nearest(x, packed(s as nat, k as nat, st));
        lemma2_to64();
    }
    let below = (s / 4) as u64 + (k as u64) * HIDDEN;
    let rest = s % 4;
    if rest == 3 || (rest == 2 && (st || below % 2 == 1)) {
        below + 1
    } else {
        below
    }
}

} // verus!
