//! Shifts and bit lengths of 128-bit words, stated as arithmetic.

use vstd::prelude::*;
use vstd::arithmetic::power2::{
    pow2, lemma_pow2_pos, lemma_pow2_adds, lemma_pow2_unfold, lemma_pow2_strictly_increases,
    lemma2_to64, lemma2_to64_rest,
};
use vstd::arithmetic::div_mod::lemma_fundamental_div_mod;
use vstd::bits::lemma_u128_shr_is_div;
use vstd::std_specs::bits::{axiom_u64_leading_zeros, u64_leading_zeros};

verus! {

/// Two to the power sixty-four.
pub const HALF: u128 = 0x1_0000_0000_0000_0000;

/// The number of bits of `n` without its leading zeros.
pub open spec fn length(n: nat) -> nat
    decreases n,
{
    if n == 0 {
        0
    } else {
        length(n / 2) + 1
    }
}

/// A positive number lies between the two powers of two that its length
/// names.
pub proof fn lemma_length(n: nat)
    requires
        n > 0,
    ensures
        pow2((length(n) - 1) as nat) <= n < pow2(length(n)),
    decreases n,
{
    lemma2_to64();
    if n > 1 {
        lemma_length(n / 2);
        lemma_pow2_unfold(length(n));
        lemma_pow2_unfold(length(n / 2));
    } else {
        assert(length(1) == length(0) + 1);
    }
}

/// The length is the only exponent whose power of two bounds `n` so.
pub proof fn lemma_length_unique(n: nat, l: nat)
    requires
        l > 0,
        pow2((l - 1) as nat) <= n < pow2(l),
    ensures
        length(n) == l,
{
    lemma_pow2_pos((l - 1) as nat);
    lemma_length(n);
    let k = length(n);
    if k < l {
        if k < l - 1 {
            lemma_pow2_strictly_increases(k, (l - 1) as nat);
        }
    } else if k > l {
        if l < k - 1 {
            lemma_pow2_strictly_increases(l, (k - 1) as nat);
        }
    }
}

/// The leading zeros of a 64-bit word are the bits that its length leaves.
proof fn lemma_leading_zeros(v: u64)
    ensures
        u64_leading_zeros(v) == 64 - length(v as nat),
    decreases v,
{
    reveal(u64_leading_zeros);
    if v != 0 {
        lemma_leading_zeros(v / 2);
    }
}

/// A shift to the left multiplies by a power of two, where nothing is
/// shifted out.
proof fn lemma_shift_left(n: u128, by: u128)
    requires
        by < 128,
        n * pow2(by as nat) <= u128::MAX,
    ensures
        n << by == n * pow2(by as nat),
    decreases by,
{
    lemma2_to64();
    if by == 0 {
        assert(n << 0u128 == n) by (bit_vector);
        let q = pow2(by as nat);
        assert(n * q == n) by (nonlinear_arith)
            requires
                q == 1,
        ;
    } else {
        let less = (by - 1) as u128;
        lemma_pow2_unfold(by as nat);
        let p = pow2(less as nat);
        let q = pow2(by as nat);
        assert(n * q == 2 * (n * p)) by (nonlinear_arith)
            requires
                q == 2 * p,
        ;
        lemma_shift_left(n, less);
        assert(n << by == 2 * (n << less)) by (bit_vector)
            requires
                0 < by < 128,
                less == by - 1,
                (n << less) < 0x8000_0000_0000_0000_0000_0000_0000_0000u128,
        ;
    }
}

/// The length of `n` in bits.
pub fn bit_length(n: u128) -> (l: u32)
    ensures
        l == length(n as nat),
        l <= 128,
{
    let high = (n / HALF) as u64;
    let low = (n % HALF) as u64;
    proof {
        lemma_leading_zeros(high);
        lemma_leading_zeros(low);
        lemma2_to64();
        if high != 0 {
            lemma_length(high as nat);
            let l = length(high as nat);
            lemma_pow2_adds((l - 1) as nat, 64);
            lemma_pow2_adds(l, 64);
            assert(pow2((l - 1) as nat) * HALF <= high * HALF) by (nonlinear_arith)
                requires
                    pow2((l - 1) as nat) <= high,
            ;
            assert((high + 1) * HALF <= pow2(l) * HALF) by (nonlinear_arith)
                requires
                    high + 1 <= pow2(l),
            ;
            lemma_length_unique(n as nat, l + 64);
        } else if low != 0 {
            assert(n == low);
        }
        axiom_u64_leading_zeros(high);
        axiom_u64_leading_zeros(low);
    }
    if high != 0 {
        128 - high.leading_zeros()
    } else {
        64 - low.leading_zeros()
    }
}

/// `n * 2^by`, where that fits.
pub fn shift_left(n: u128, by: u32) -> (r: u128)
    requires
        by < 128,
        n * pow2(by as nat) <= u128::MAX,
    ensures
        r == n * pow2(by as nat),
{
    proof {
        lemma_shift_left(n, by as u128);
    }
    n << by
}

/// `n / 2^by`, rounded down, and whether anything was lost.
pub fn shift_right(n: u128, by: u32) -> (r: (u128, bool))
    requires
        by < 128,
    ensures
        r.0 == n as nat / pow2(by as nat),
        r.1 == (n as nat % pow2(by as nat) != 0),
{
    let kept = n >> by;
    proof {
        lemma_u128_shr_is_div(n, by as u128);
        lemma_pow2_pos(by as nat);
        lemma_fundamental_div_mod(n as int, pow2(by as nat) as int);
        assert(kept * pow2(by as nat) == pow2(by as nat) * kept) by (nonlinear_arith);
    }
    let back = shift_left(kept, by);
    (kept, back != n)
}

/// The integer square root: the largest `r` whose square is at most `v`.
pub fn integer_root(v: u128) -> (r: u128)
    requires
        v < pow2(110),
    ensures
        r * r <= v < (r + 1) * (r + 1),
        r < pow2(55),
{
    let mut r: u128 = 0;
    let mut step: u128 = 0x80_0000_0000_0000;
    let mut i: u32 = 55;
    proof {
        lemma2_to64_rest();
        lemma_pow2_adds(55, 55);
        assert(r * r == 0 && (r + step) * (r + step) == step * step) by (nonlinear_arith)
            requires
                r == 0,
        ;
    }
    while i > 0
        invariant
            i <= 55,
            step == pow2(i as nat),
            r + step <= pow2(55),
            pow2(55) == 0x80_0000_0000_0000,
            r * r <= v < (r + step) * (r + step),
        decreases i,
    {
        proof {
            lemma_pow2_unfold(i as nat);
        }
        i = i - 1;
        step = step / 2;
        let t = r + step;
        proof {
            assert(t * t <= 0x80_0000_0000_0000 * 0x80_0000_0000_0000) by (nonlinear_arith)
                requires
                    0 <= t <= 0x80_0000_0000_0000,
            ;
        }
        if t * t <= v {
            r = t;
        }
    }
    proof {
        lemma2_to64();
    }
    r
}

} // verus!
