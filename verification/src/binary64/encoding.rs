//! The binary64 encoding as a mathematical model.
//!
//! A binary64 value is a 64-bit word: one sign bit, eleven bits of biased
//! exponent and fifty-two bits of fraction. The word without its sign bit is
//! the *magnitude*. Magnitudes up to [`INFINITY`] are ordered as the numbers
//! they encode, and stepping to the next magnitude steps to the next
//! representable number. A finite magnitude `m` encodes the number
//! `scaled(m) * 2^-1074`, so `scaled` measures it in units of the smallest
//! positive binary64 value.

use vstd::prelude::*;
use vstd::arithmetic::power2::{
    pow2, lemma_pow2_adds, lemma_pow2_pos, lemma_pow2_strictly_increases, lemma_pow2_unfold,
    lemma2_to64, lemma2_to64_rest,
};

verus! {

/// The sign bit.
pub const SIGN: u64 = 0x8000_0000_0000_0000;

/// The magnitude of infinity; every larger magnitude is a NaN.
pub const INFINITY: u64 = 0x7ff0_0000_0000_0000;

/// The NaN that every operation of this library returns.
pub const NAN: u64 = 0x7ff8_0000_0000_0000;

/// The weight of the lowest exponent bit, two to the power fifty-two.
pub const HIDDEN: u64 = 0x0010_0000_0000_0000;

/// The encoding of the number one.
pub const ONE: u64 = 0x3ff0_0000_0000_0000;

/// The word without its sign bit.
pub open spec fn magnitude(bits: u64) -> u64 {
    if bits >= SIGN {
        (bits - SIGN) as u64
    } else {
        bits
    }
}

/// Whether the sign bit is set.
pub open spec fn negative(bits: u64) -> bool {
    bits >= SIGN
}

/// Whether the word is a NaN.
pub open spec fn is_nan(bits: u64) -> bool {
    magnitude(bits) > INFINITY
}

/// Whether the word is a number that is not infinite.
pub open spec fn is_finite(bits: u64) -> bool {
    magnitude(bits) < INFINITY
}

/// Whether the word is a zero, of either sign.
pub open spec fn is_zero(bits: u64) -> bool {
    magnitude(bits) == 0
}

/// The magnitude `m` under the sign of `negative`.
pub open spec fn with_sign(negative: bool, m: u64) -> u64 {
    if negative {
        (m + SIGN) as u64
    } else {
        m
    }
}

/// The biased exponent field of a magnitude.
pub open spec fn exponent(m: u64) -> nat {
    (m / HIDDEN) as nat
}

/// The fraction field of a magnitude.
pub open spec fn fraction(m: u64) -> nat {
    (m % HIDDEN) as nat
}

/// The integer significand: the fraction, with the hidden bit above it
/// unless the magnitude is subnormal.
pub open spec fn significand(m: u64) -> nat {
    if exponent(m) == 0 {
        fraction(m)
    } else {
        HIDDEN as nat + fraction(m)
    }
}

/// The power of two that the significand is multiplied by, in units of
/// `2^-1074`.
pub open spec fn scale(m: u64) -> nat {
    if exponent(m) == 0 {
        0
    } else {
        (exponent(m) - 1) as nat
    }
}

/// The number that the magnitude `m` encodes, in units of `2^-1074`. For
/// `INFINITY` this is `2^2098`, the first power of two too large to be
/// finite.
pub open spec fn scaled(m: u64) -> nat {
    significand(m) * pow2(scale(m))
}

/// The distance from `m` to the next magnitude, in units of `2^-1074`.
pub open spec fn spacing(m: u64) -> nat {
    pow2(scale(m))
}

/// Takes a word apart into its sign and its magnitude.
pub fn split(bits: u64) -> (r: (bool, u64))
    ensures
        r.0 == negative(bits),
        r.1 == magnitude(bits),
{
    if bits >= SIGN {
        (true, bits - SIGN)
    } else {
        (false, bits)
    }
}

/// Puts a sign on a magnitude.
pub fn join(negative: bool, m: u64) -> (bits: u64)
    requires
        m < SIGN,
    ensures
        bits == with_sign(negative, m),
        magnitude(bits) == m,
        self::negative(bits) == negative,
{
    if negative {
        m + SIGN
    } else {
        m
    }
}

/// The significand and the scale of a finite magnitude.
pub fn decode(m: u64) -> (r: (u64, u32))
    requires
        m < INFINITY,
    ensures
        r.0 == significand(m),
        r.1 == scale(m),
        r.0 < 2 * HIDDEN,
        r.1 <= 2045,
        r.1 > 0 ==> r.0 >= HIDDEN,
        r.0 == 0 <==> m == 0,
{
    let e = m / HIDDEN;
    let f = m % HIDDEN;
    if e == 0 {
        (f, 0)
    } else {
        (f + HIDDEN, (e - 1) as u32)
    }
}

/// Stepping to the next magnitude adds one spacing.
pub proof fn lemma_successor(m: u64)
    requires
        m < INFINITY,
    ensures
        scaled((m + 1) as u64) == scaled(m) + spacing(m),
{
    let e = exponent(m);
    let f = fraction(m);
    let n = (m + 1) as u64;
    lemma2_to64();
    if f + 1 < HIDDEN {
        assert(exponent(n) == e);
        assert(fraction(n) == f + 1);
        assert((significand(m) + 1) * pow2(scale(m)) == significand(m) * pow2(scale(m)) + pow2(
            scale(m),
        )) by (nonlinear_arith);
    } else {
        assert(exponent(n) == e + 1);
        assert(fraction(n) == 0);
        if e == 0 {
            assert(scaled(n) == HIDDEN * 1);
            assert(scaled(m) == (HIDDEN - 1) * 1);
        } else {
            lemma_pow2_unfold(e);
            let p = pow2((e - 1) as nat);
            assert(HIDDEN * (2 * p) == (HIDDEN + (HIDDEN - 1)) * p + p) by (nonlinear_arith);
        }
    }
}

/// Larger magnitudes encode larger numbers.
pub proof fn lemma_increasing(a: u64, b: u64)
    requires
        a < b <= INFINITY,
    ensures
        scaled(a) < scaled(b),
    decreases b - a,
{
    let p = (b - 1) as u64;
    lemma_successor(p);
    lemma_pow2_pos(scale(p));
    if a < p {
        lemma_increasing(a, p);
    }
}

/// Magnitudes in order encode numbers in order.
pub proof fn lemma_ordered(a: u64, b: u64)
    requires
        a <= b <= INFINITY,
    ensures
        scaled(a) <= scaled(b),
{
    if a < b {
        lemma_increasing(a, b);
    }
}

/// Larger magnitudes are spaced at least as widely.
pub proof fn lemma_spacing_grows(a: u64, b: u64)
    requires
        a <= b,
    ensures
        spacing(a) <= spacing(b),
{
    assert(exponent(a) <= exponent(b));
    if scale(a) < scale(b) {
        lemma_pow2_strictly_increases(scale(a), scale(b));
    }
}

/// A magnitude made of a significand below `2^53` and a scale: where the
/// scale is positive the significand must have its hidden bit.
pub proof fn lemma_assemble(sig: u64, scale_by: u64)
    requires
        sig < 2 * HIDDEN,
        scale_by <= 2045,
        scale_by > 0 ==> sig >= HIDDEN,
    ensures
        sig + scale_by * HIDDEN < INFINITY,
        scale((sig + scale_by * HIDDEN) as u64) == scale_by,
        scaled((sig + scale_by * HIDDEN) as u64) == sig * pow2(scale_by as nat),
{
    let m = (sig + scale_by * HIDDEN) as u64;
    if sig >= HIDDEN {
        assert(exponent(m) == scale_by + 1);
        assert(fraction(m) == sig - HIDDEN);
    } else {
        assert(exponent(m) == 0);
        assert(fraction(m) == sig);
    }
}

/// The number that `INFINITY` stands for when rounding.
pub proof fn lemma_scaled_infinity()
    ensures
        scaled(INFINITY) == pow2(2098),
{
    assert(exponent(INFINITY) == 2047);
    assert(fraction(INFINITY) == 0);
    lemma2_to64_rest();
    lemma_pow2_adds(52, 2046);
}

/// Zero encodes no units, and one encodes `2^1074` of them.
pub proof fn lemma_zero_and_one()
    ensures
        scaled(0) == 0,
        scaled(ONE) == pow2(1074),
{
    assert(exponent(ONE) == 1023);
    assert(fraction(ONE) == 0);
    lemma2_to64_rest();
    lemma_pow2_adds(52, 1022);
    assert(scaled(0) == 0 * pow2(0));
}

/// The powers of two grow.
pub proof fn lemma_pow2_le(a: nat, b: nat)
    requires
        a <= b,
    ensures
        pow2(a) <= pow2(b),
{
    if a < b {
        lemma_pow2_strictly_increases(a, b);
    }
}

} // verus!
