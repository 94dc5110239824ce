//! The square root.

use vstd::prelude::*;
use vstd::arithmetic::power2::{pow2, lemma_pow2_pos, lemma_pow2_adds, lemma2_to64, lemma2_to64_rest};
use crate::binary64::encoding::{
    INFINITY, NAN, SIGN, magnitude, negative, is_nan, scaled, decode, lemma_pow2_le,
};
use crate::binary64::exact::Exact;
use crate::binary64::pack::{brackets, round, lemma_brackets_root};
use crate::binary64::rounding::nearest;
use crate::binary64::wide::{bit_length, shift_left, integer_root, lemma_length};

verus! {

/// The square root of a binary64 value.
///
/// NaN gives NaN, and so does every negative value but negative zero. A
/// zero of either sign and positive infinity are their own square roots.
/// Every other value gives its exact square root rounded to nearest, ties
/// to even.
pub open spec fn square_root(a: u64) -> u64 {
    if is_nan(a) {
        NAN
    } else if magnitude(a) == 0 {
        a
    } else if negative(a) {
        NAN
    } else if a == INFINITY {
        INFINITY
    } else {
        nearest(Exact::Root { square: scaled(a) * pow2(1074) })
    }
}

/// The integer root `n` of the significand, shifted up by `up` bits,
/// brackets the exact square root.
proof fn lemma_root(g: nat, c: nat, up: nat, n: nat, e: nat)
    requires
        n * n <= g * pow2(up) < (n + 1) * (n + 1),
        2 * e + up == c + 3474,
    ensures
        brackets(Exact::Root { square: (g * pow2(c)) * pow2(1074) }, n, e, n * n != g * pow2(up)),
{
    let pe = pow2(e);
    let pp = pow2(2 * e);
    let wide = g * pow2(up);
    let square = (g * pow2(c)) * pow2(1074);
    lemma_pow2_adds(e, e);
    lemma_pow2_adds(up, 2 * e);
    lemma_pow2_adds(c, 3474);
    lemma_pow2_adds(1074, 2400);
    lemma_pow2_pos(2 * e);
    assert(square * pow2(2400) == wide * pp) by (nonlinear_arith)
        requires
            square == (g * pow2(c)) * pow2(1074),
            pow2(1074) * pow2(2400) == pow2(3474),
            pow2(c) * pow2(3474) == pow2(up) * pp,
            wide == g * pow2(up),
    ;
    assert((n * pe) * (n * pe) == (n * n) * pp && ((n + 1) * pe) * ((n + 1) * pe) == ((n + 1) * (n
        + 1)) * pp) by (nonlinear_arith)
        requires
            pp == pe * pe,
    ;
    assert((n * n) * pp <= wide * pp < ((n + 1) * (n + 1)) * pp && (n * n != wide ==> (n * n) * pp
        != wide * pp)) by (nonlinear_arith)
        requires
            n * n <= wide < (n + 1) * (n + 1),
            pp > 0,
    ;
    lemma_brackets_root(square, n, e, n * n != wide);
}

/// Takes the square root of a binary64 value.
pub fn sqrt(a: u64) -> (r: u64)
    ensures
        r == square_root(a),
{
    if a >= SIGN {
        if a - SIGN > INFINITY {
            return NAN;
        }
        if a == SIGN {
            return a;
        }
        return NAN;
    }
    if a > INFINITY {
        return NAN;
    }
    if a == 0 || a == INFINITY {
        return a;
    }
    let (g, c) = decode(a);
    let ghost x = Exact::Root { square: scaled(a) * pow2(1074) };
    let l = bit_length(g as u128);
    proof {
        lemma2_to64();
        lemma2_to64_rest();
        lemma_length(g as nat);
        if l > 53 {
            lemma_pow2_le(53, (l - 1) as nat);
        }
    }
    // The shift that leaves 109 or 110 bits and an even exponent.
    let up = if (109 - l + c) % 2 == 0 {
        109 - l
    } else {
        110 - l
    };
    proof {
        let up = up as nat;
        let l = l as nat;
        lemma_pow2_adds(l, up);
        lemma_pow2_adds((l - 1) as nat, up);
        lemma_pow2_le(l + up, 110);
        lemma_pow2_adds(55, 55);
        assert(pow2(110) == 0x80_0000_0000_0000 * 0x80_0000_0000_0000);
        lemma_pow2_le(108, (l - 1 + up) as nat);
        let pu = pow2(up);
        lemma_pow2_pos(up);
        assert(pow2((l - 1) as nat) * pu <= g * pu < pow2(l) * pu) by (nonlinear_arith)
            requires
                pow2((l - 1) as nat) <= g < pow2(l),
                pu > 0,
        ;
    }
    let wide = shift_left(g as u128, up);
    let n = integer_root(wide);
    let e = (c + 3474 - up) / 2;
    proof {
        lemma_root(g as nat, c as nat, up as nat, n as nat, e as nat);
        lemma_pow2_adds(54, 54);
        assert(n >= pow2(54)) by (nonlinear_arith)
            requires
                wide < (n + 1) * (n + 1),
                wide >= pow2(54) * pow2(54),
                n >= 0,
                pow2(54) > 0,
        ;
    }
    round(n, e, n * n != wide, Ghost(x))
}

} // verus!
