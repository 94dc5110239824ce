//! Multiplication.

use vstd::prelude::*;
use vstd::arithmetic::power2::{pow2, lemma_pow2_pos, lemma_pow2_adds};
use crate::binary64::encoding::{
    INFINITY, NAN, magnitude, negative, is_nan, scaled, with_sign, split, join, decode,
};
use crate::binary64::exact::Exact;
use crate::binary64::pack::{brackets, round, lemma_brackets_ratio};
use crate::binary64::rounding::nearest;

verus! {

/// The product of two binary64 values.
///
/// A NaN operand, or zero times infinity, gives NaN. Otherwise the sign is
/// negative exactly if the signs of the operands differ, an infinite
/// operand gives infinity, and finite operands give their exact product
/// rounded to nearest, ties to even.
pub open spec fn product(a: u64, b: u64) -> u64 {
    let sign = negative(a) != negative(b);
    let ma = magnitude(a);
    let mb = magnitude(b);
    if is_nan(a) || is_nan(b) {
        NAN
    } else if ma == INFINITY || mb == INFINITY {
        if ma == 0 || mb == 0 {
            NAN
        } else {
            with_sign(sign, INFINITY)
        }
    } else {
        with_sign(sign, nearest(Exact::Ratio { num: scaled(ma) * scaled(mb), den: pow2(1074) }))
    }
}

/// The product of two significands, with the sum of the scales as its
/// exponent, is the exact product.
proof fn lemma_product_exact(ga: nat, ca: nat, gb: nat, cb: nat)
    ensures
        brackets(
            Exact::Ratio { num: (ga * pow2(ca)) * (gb * pow2(cb)), den: pow2(1074) },
            ga * gb,
            ca + cb + 126,
            false,
        ),
{
    let pa = pow2(ca);
    let pb = pow2(cb);
    let pe = pow2(ca + cb + 126);
    let den = pow2(1074);
    let grid = pow2(1200);
    lemma_pow2_adds(ca, cb);
    lemma_pow2_adds(ca + cb, 126);
    lemma_pow2_adds(126, 1074);
    lemma_pow2_pos(ca + cb + 126);
    lemma_pow2_pos(1074);
    let n = ga * gb;
    let num = (ga * pa) * (gb * pb);
    assert(pe * den == (pa * pb) * grid) by (nonlinear_arith)
        requires
            pe == (pa * pb) * pow2(126),
            grid == pow2(126) * den,
    ;
    assert(n * ((pa * pb) * grid) == num * grid) by (nonlinear_arith)
        requires
            n == ga * gb,
            num == (ga * pa) * (gb * pb),
    ;
    assert(n * (pe * den) < (n + 1) * (pe * den)) by (nonlinear_arith)
        requires
            pe > 0,
            den > 0,
    ;
    lemma_brackets_ratio(num, den, n, ca + cb + 126, false);
}

/// Multiplies two binary64 values.
pub fn multiply(a: u64, b: u64) -> (r: u64)
    ensures
        r == product(a, b),
{
    let (na, ma) = split(a);
    let (nb, mb) = split(b);
    let sign = na != nb;
    if ma > INFINITY || mb > INFINITY {
        return NAN;
    }
    if ma == INFINITY || mb == INFINITY {
        if ma == 0 || mb == 0 {
            return NAN;
        }
        return join(sign, INFINITY);
    }
    let (ga, ca) = decode(ma);
    let (gb, cb) = decode(mb);
    let ghost x = Exact::Ratio { num: scaled(ma) * scaled(mb), den: pow2(1074) };
    proof {
        lemma_product_exact(ga as nat, ca as nat, gb as nat, cb as nat);
        lemma_pow2_pos(1074);
        assert(ga * gb < 0x40_0000_0000_0000 * 0x40_0000_0000_0000) by (nonlinear_arith)
            requires
                ga < 0x20_0000_0000_0000,
                gb < 0x20_0000_0000_0000,
        ;
    }
    let m = round((ga as u128) * (gb as u128), ca + cb + 126, false, Ghost(x));
    join(sign, m)
}

} // verus!
