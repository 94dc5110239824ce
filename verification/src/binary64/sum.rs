//! Addition and subtraction.

use vstd::prelude::*;
use vstd::arithmetic::power2::{pow2, lemma_pow2_pos, lemma_pow2_adds, lemma2_to64, lemma2_to64_rest};
use crate::binary64::encoding::{
    HIDDEN, INFINITY, NAN, magnitude, negative, is_nan, scaled, with_sign, split, join, decode,
    lemma_increasing, lemma_pow2_le,
};
use crate::binary64::exact::Exact;
use crate::binary64::pack::{brackets, round, lemma_brackets_ratio};
use crate::binary64::rounding::nearest;
use crate::binary64::wide::shift_left;

verus! {

/// The sum of two binary64 values.
///
/// A NaN operand, or infinities of opposite signs, give NaN; otherwise an
/// infinite operand is the result. Finite operands of one sign give that
/// sign on the rounded sum of their magnitudes. Finite operands of opposite
/// signs give positive zero where the magnitudes are equal, and else the
/// sign of the larger on the rounded difference of the magnitudes.
pub open spec fn sum(a: u64, b: u64) -> u64 {
    let ma = magnitude(a);
    let mb = magnitude(b);
    if is_nan(a) || is_nan(b) {
        NAN
    } else if ma == INFINITY {
        if mb == INFINITY && negative(a) != negative(b) {
            NAN
        } else {
            a
        }
    } else if mb == INFINITY {
        b
    } else if negative(a) == negative(b) {
        with_sign(negative(a), nearest(Exact::Ratio { num: scaled(ma) + scaled(mb), den: 1 }))
    } else if ma == mb {
        0
    } else if ma > mb {
        with_sign(
            negative(a),
            nearest(Exact::Ratio { num: (scaled(ma) - scaled(mb)) as nat, den: 1 }),
        )
    } else {
        with_sign(
            negative(b),
            nearest(Exact::Ratio { num: (scaled(mb) - scaled(ma)) as nat, den: 1 }),
        )
    }
}

/// The word with the other sign.
pub open spec fn opposite(a: u64) -> u64 {
    with_sign(!negative(a), magnitude(a))
}

/// The difference of two binary64 values: the sum of the first and the
/// opposite of the second.
pub open spec fn difference(a: u64, b: u64) -> u64 {
    sum(a, opposite(b))
}

/// The magnitudes to be combined: their sum, or what is left of the larger
/// without the smaller.
pub open spec fn combined(large: nat, small: nat, same: bool) -> nat {
    if same {
        large + small
    } else {
        (large - small) as nat
    }
}

/// Scales that differ by at most sixty-four: the smaller significand is
/// combined with the shifted larger one, exactly.
proof fn lemma_near(gl: nat, cl: nat, gs: nat, cs: nat, same: bool)
    requires
        cs <= cl,
        gs * pow2(cs) <= gl * pow2(cl),
    ensures
        gs <= gl * pow2((cl - cs) as nat),
        brackets(
            Exact::Ratio { num: combined(gl * pow2(cl), gs * pow2(cs), same), den: 1 },
            combined(gl * pow2((cl - cs) as nat), gs, same),
            cs + 1200,
            false,
        ),
{
    let d = (cl - cs) as nat;
    let pd = pow2(d);
    let ps = pow2(cs);
    let pl = pow2(cl);
    let grid = pow2(1200);
    let pe = pow2(cs + 1200);
    lemma_pow2_adds(d, cs);
    lemma_pow2_adds(cs, 1200);
    lemma_pow2_pos(cs);
    lemma_pow2_pos(1200);
    assert(gs <= gl * pd) by (nonlinear_arith)
        requires
            gs * ps <= gl * pl,
            pl == pd * ps,
            ps > 0,
    ;
    let n = combined(gl * pd, gs, same);
    let num = combined(gl * pl, gs * ps, same);
    assert(n * ps == num) by (nonlinear_arith)
        requires
            pl == pd * ps,
            gs <= gl * pd,
            gs * ps <= gl * pl,
            same ==> n == gl * pd + gs && num == gl * pl + gs * ps,
            !same ==> n == gl * pd - gs && num == gl * pl - gs * ps,
    ;
    assert(n * (pe * 1) == num * grid && n * (pe * 1) < (n + 1) * (pe * 1)) by (nonlinear_arith)
        requires
            n * ps == num,
            pe == ps * grid,
            ps > 0,
            grid > 0,
    ;
    lemma_brackets_ratio(num, 1, n, cs + 1200, false);
}

/// Scales that differ by more than sixty-four: the smaller operand only
/// says on which side of the larger the result lies.
proof fn lemma_far(gl: nat, cl: nat, gs: nat, cs: nat, same: bool)
    requires
        cs + 64 < cl,
        gl >= HIDDEN,
        gs < 2 * HIDDEN,
    ensures
        brackets(
            Exact::Ratio { num: combined(gl * pow2(cl), gs * pow2(cs), same), den: 1 },
            if gs != 0 && !same {
                (8 * gl - 1) as nat
            } else {
                8 * gl
            },
            cl + 1197,
            gs != 0,
        ),
{
    let unit = pow2((cl - 3) as nat);
    let ps = pow2(cs);
    let pl = pow2(cl);
    let grid = pow2(1200);
    let pe = pow2(cl + 1197);
    lemma2_to64();
    lemma2_to64_rest();
    lemma_pow2_adds(3, (cl - 3) as nat);
    lemma_pow2_adds((cl - 3) as nat, 1200);
    lemma_pow2_adds(53, cs);
    lemma_pow2_le(53 + cs, (cl - 3) as nat);
    lemma_pow2_pos(cs);
    lemma_pow2_pos(1200);
    lemma_pow2_pos((cl - 3) as nat);
    let small = gs * ps;
    assert(small < pow2(53) * ps && (gs != 0 ==> small > 0)) by (nonlinear_arith)
        requires
            small == gs * ps,
            gs < pow2(53),
            ps > 0,
    ;
    let large = gl * pl;
    assert(large == (8 * gl) * unit && large >= unit) by (nonlinear_arith)
        requires
            large == gl * pl,
            pl == 8 * unit,
            gl >= 1,
            unit > 0,
    ;
    let n: nat = if gs != 0 && !same {
        (8 * gl - 1) as nat
    } else {
        8 * gl
    };
    let num = combined(large, small, same);
    assert(n * unit <= num < (n + 1) * unit && (gs != 0 <==> n * unit != num))
        by (nonlinear_arith)
        requires
            large == (8 * gl) * unit,
            small < unit,
            gs != 0 ==> small > 0,
            gs == 0 ==> small == 0,
            same ==> num == large + small,
            !same ==> num == large - small,
            gs != 0 && !same ==> n == 8 * gl - 1,
            gs == 0 || same ==> n == 8 * gl,
    ;
    assert(n * (pe * 1) == (n * unit) * grid && (n + 1) * (pe * 1) == ((n + 1) * unit) * grid)
        by (nonlinear_arith)
        requires
            pe == unit * grid,
    ;
    assert((n * unit) * grid <= num * grid < ((n + 1) * unit) * grid && (n * unit != num ==> (n
        * unit) * grid != num * grid)) by (nonlinear_arith)
        requires
            n * unit <= num < (n + 1) * unit,
            grid > 0,
    ;
    lemma_brackets_ratio(num, 1, n, cl + 1197, gs != 0);
}

/// Adds two binary64 values.
pub fn add(a: u64, b: u64) -> (r: u64)
    ensures
        r == sum(a, b),
{
    let (na, ma) = split(a);
    let (nb, mb) = split(b);
    if ma > INFINITY || mb > INFINITY {
        return NAN;
    }
    if ma == INFINITY {
        if mb == INFINITY && na != nb {
            return NAN;
        }
        return a;
    }
    if mb == INFINITY {
        return b;
    }
    let same = na == nb;
    if !same && ma == mb {
        return 0;
    }
    let (large, small, sign) = if ma >= mb {
        (ma, mb, na)
    } else {
        (mb, ma, nb)
    };
    let (gl, cl) = decode(large);
    let (gs, cs) = decode(small);
    let ghost x = Exact::Ratio { num: combined(scaled(large), scaled(small), same), den: 1 };
    proof {
        if small < large {
            lemma_increasing(small, large);
        }
        lemma2_to64();
        lemma2_to64_rest();
    }
    let m = if cl - cs <= 64 {
        proof {
            lemma_near(gl as nat, cl as nat, gs as nat, cs as nat, same);
            lemma_pow2_le((cl - cs) as nat, 64);
            assert(gl * pow2((cl - cs) as nat) <= 0x20_0000_0000_0000 * 0x1_0000_0000_0000_0000)
                by (nonlinear_arith)
                requires
                    gl <= 0x20_0000_0000_0000,
                    pow2((cl - cs) as nat) <= 0x1_0000_0000_0000_0000,
            ;
        }
        let wide = shift_left(gl as u128, cl - cs);
        let n = if same {
            wide + gs as u128
        } else {
            wide - gs as u128
        };
        round(n, cs + 1200, false, Ghost(x))
    } else {
        proof {
            lemma_far(gl as nat, cl as nat, gs as nat, cs as nat, same);
        }
        let wide = (gl as u128) * 8;
        let n = if gs != 0 && !same {
            wide - 1
        } else {
            wide
        };
        round(n, cl + 1197, gs != 0, Ghost(x))
    };
    join(sign, m)
}

/// Subtracts the second binary64 value from the first.
pub fn subtract(a: u64, b: u64) -> (r: u64)
    ensures
        r == difference(a, b),
{
    let (nb, mb) = split(b);
    self::add(a, join(!nb, mb))
}

} // verus!
