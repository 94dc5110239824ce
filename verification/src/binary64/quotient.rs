//! Division.

use vstd::prelude::*;
use vstd::arithmetic::power2::{pow2, lemma_pow2_pos, lemma_pow2_adds, lemma2_to64, lemma2_to64_rest};
use vstd::arithmetic::div_mod::lemma_fundamental_div_mod;
use crate::binary64::encoding::{
    INFINITY, NAN, magnitude, negative, is_nan, scaled, with_sign, split, join, decode,
    lemma_increasing, lemma_pow2_le,
};
use crate::binary64::exact::Exact;
use crate::binary64::pack::{brackets, round, lemma_brackets_ratio};
use crate::binary64::rounding::nearest;
use crate::binary64::wide::{bit_length, shift_left, lemma_length};

verus! {

/// The quotient of two binary64 values.
///
/// A NaN operand, zero by zero or infinity by infinity give NaN. Otherwise
/// the sign is negative exactly if the signs of the operands differ; an
/// infinite dividend or a zero divisor gives infinity, an infinite divisor
/// gives zero, and else the result is the exact quotient rounded to
/// nearest, ties to even.
pub open spec fn quotient(a: u64, b: u64) -> u64 {
    let sign = negative(a) != negative(b);
    let ma = magnitude(a);
    let mb = magnitude(b);
    if is_nan(a) || is_nan(b) {
        NAN
    } else if ma == INFINITY {
        if mb == INFINITY {
            NAN
        } else {
            with_sign(sign, INFINITY)
        }
    } else if mb == INFINITY {
        with_sign(sign, 0)
    } else if mb == 0 {
        if ma == 0 {
            NAN
        } else {
            with_sign(sign, INFINITY)
        }
    } else {
        with_sign(sign, nearest(Exact::Ratio { num: scaled(ma) * pow2(1074), den: scaled(mb) }))
    }
}

/// The integer quotient `q` of the dividend's significand, shifted up by
/// `up` bits, and the divisor's significand brackets the exact quotient.
proof fn lemma_quotient(ga: nat, ca: nat, gb: nat, cb: nat, up: nat, q: nat, rest: nat, e: nat)
    requires
        gb > 0,
        ga * pow2(up) == q * gb + rest,
        rest < gb,
        e + cb + up == ca + 2274,
    ensures
        brackets(
            Exact::Ratio { num: (ga * pow2(ca)) * pow2(1074), den: gb * pow2(cb) },
            q,
            e,
            rest != 0,
        ),
{
    let pa = pow2(ca);
    let pb = pow2(cb);
    let pe = pow2(e);
    let pu = pow2(up);
    let grid = pow2(1200);
    let tail = pow2(e + cb);
    let num = (ga * pa) * pow2(1074);
    let den = gb * pb;
    lemma_pow2_adds(e, cb);
    lemma_pow2_adds(up, e + cb);
    lemma_pow2_adds(ca, 2274);
    lemma_pow2_adds(1074, 1200);
    lemma_pow2_pos(e + cb);
    lemma_pow2_pos(cb);
    assert(den > 0) by (nonlinear_arith)
        requires
            den == gb * pb,
            gb > 0,
            pb > 0,
    ;
    assert(num * grid == (q * gb + rest) * tail) by (nonlinear_arith)
        requires
            num == (ga * pa) * pow2(1074),
            pow2(1074) * grid == pow2(2274),
            pa * pow2(2274) == pu * tail,
            ga * pu == q * gb + rest,
    ;
    assert(q * (pe * den) == (q * gb) * tail && (q + 1) * (pe * den) == (q * gb + gb) * tail)
        by (nonlinear_arith)
        requires
            den == gb * pb,
            tail == pe * pb,
    ;
    assert((q * gb) * tail <= (q * gb + rest) * tail < (q * gb + gb) * tail && (rest != 0 ==> (q
        * gb) * tail != (q * gb + rest) * tail)) by (nonlinear_arith)
        requires
            rest < gb,
            tail > 0,
    ;
    lemma_brackets_ratio(num, den, q, e, rest != 0);
}

/// Divides the first binary64 value by the second.
pub fn divide(a: u64, b: u64) -> (r: u64)
    ensures
        r == quotient(a, b),
{
    let (na, ma) = split(a);
    let (nb, mb) = split(b);
    let sign = na != nb;
    if ma > INFINITY || mb > INFINITY {
        return NAN;
    }
    if ma == INFINITY {
        if mb == INFINITY {
            return NAN;
        }
        return join(sign, INFINITY);
    }
    if mb == INFINITY {
        return join(sign, 0);
    }
    if mb == 0 {
        if ma == 0 {
            return NAN;
        }
        return join(sign, INFINITY);
    }
    let (ga, ca) = decode(ma);
    let (gb, cb) = decode(mb);
    let ghost x = Exact::Ratio { num: scaled(ma) * pow2(1074), den: scaled(mb) };
    // The dividend's significand, with its highest bit moved to the top of
    // a 117-bit word.
    let l = bit_length(ga as u128);
    proof {
        lemma2_to64();
        lemma2_to64_rest();
        lemma_increasing(0, mb);
        if ga > 0 {
            lemma_length(ga as nat);
            if l > 53 {
                lemma_pow2_le(53, (l - 1) as nat);
            }
        }
    }
    let up = 117 - l;
    proof {
        lemma_pow2_adds(53, 64);
        lemma_pow2_adds(63, 53);
        if ga > 0 {
            let l = l as nat;
            lemma_pow2_adds(l, up as nat);
            lemma_pow2_adds((l - 1) as nat, up as nat);
            let pu = pow2(up as nat);
            lemma_pow2_pos(up as nat);
            assert(pow2((l - 1) as nat) * pu <= ga * pu < pow2(l) * pu) by (nonlinear_arith)
                requires
                    pow2((l - 1) as nat) <= ga < pow2(l),
                    pu > 0,
            ;
        } else {
            assert(ga * pow2(up as nat) == 0) by (nonlinear_arith)
                requires
                    ga == 0,
            ;
        }
    }
    let wide = shift_left(ga as u128, up);
    let q = wide / (gb as u128);
    let rest = wide % (gb as u128);
    let e = ca + 2274 - cb - up;
    proof {
        lemma_fundamental_div_mod(wide as int, gb as int);
        assert(gb * q == q * gb) by (nonlinear_arith);
        lemma_quotient(
            ga as nat,
            ca as nat,
            gb as nat,
            cb as nat,
            up as nat,
            q as nat,
            rest as nat,
            e as nat,
        );
        if ga > 0 {
            assert(q >= pow2(63)) by (nonlinear_arith)
                requires
                    wide == gb * q + rest,
                    rest < gb,
                    gb < pow2(53),
                    wide >= pow2(63) * pow2(53),
                    q >= 0,
            ;
        }
    }
    let m = round(q, e, rest != 0, Ghost(x));
    join(sign, m)
}

} // verus!
