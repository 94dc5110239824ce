//! Relative error, in integers.
//!
//! `near(a, b, k)` says that `a` differs from `b` by at most `k` parts in
//! `2^40` of `b`. The lemmas are the rules by which such errors add up.

use vstd::prelude::*;
use crate::binary64::accuracy::distance;

verus! {

/// The number of parts into which `near` divides a quantity: `2^40`.
pub const PARTS: u64 = 0x100_0000_0000;

/// `|a - b| <= k * 2^-40 * b`.
pub open spec fn near(a: int, b: int, k: int) -> bool {
    PARTS * distance(a, b) <= k * b
}

/// Errors add up along a chain, with one part more for their product.
pub proof fn lemma_near_chain(a: int, b: int, c: int, j: int, k: int)
    requires
        near(a, b, j),
        near(b, c, k),
        0 <= j <= 1000,
        0 <= k <= 1000,
        0 <= b,
        0 <= c,
    ensures
        near(a, c, j + k + 1),
{
    let d = PARTS as int;
    let e1 = distance(a, b);
    let e2 = distance(b, c);
    assert(distance(a, c) <= e1 + e2);
    assert(d * b <= d * c + k * c) by (nonlinear_arith)
        requires
            d * e2 <= k * c,
            b <= c + e2,
            d > 0,
    ;
    assert(j * b <= (j + 1) * c) by (nonlinear_arith)
        requires
            d * b <= d * c + k * c,
            0 <= j <= 1000,
            0 <= k <= 1000,
            d == 0x100_0000_0000,
            0 <= b,
            0 <= c,
    {
        assert(j * (d * b) <= j * (d * c + k * c));
        assert(j * k <= d);
        assert((j * k) * c <= d * c);
        assert(d * (j * b) <= d * ((j + 1) * c));
    }
    assert(d * distance(a, c) <= (j + k + 1) * c) by (nonlinear_arith)
        requires
            distance(a, c) <= e1 + e2,
            d * e1 <= j * b,
            d * e2 <= k * c,
            j * b <= (j + 1) * c,
            d > 0,
    ;
}

/// An error relative to one side is, with one part more, an error relative
/// to the other.
pub proof fn lemma_near_turned(a: int, b: int, k: int)
    requires
        near(a, b, k),
        0 <= k <= 1000,
        0 <= a,
        0 <= b,
    ensures
        near(b, a, k + 1),
{
    let d = PARTS as int;
    let e = distance(a, b);
    assert(distance(b, a) == e);
    assert(k * b <= (k + 1) * a) by (nonlinear_arith)
        requires
            d * e <= k * b,
            b <= a + e,
            0 <= k <= 1000,
            d == 0x100_0000_0000,
            0 <= a,
            0 <= b,
            0 <= e,
    {
        assert(d * b <= d * a + k * b);
        assert((d - k) * b <= d * a);
        assert((k + 1) * ((d - k) * b) <= (k + 1) * (d * a));
        assert(k * k + k <= d);
        assert((k + 1) * (d - k) >= k * d);
        assert(((k + 1) * (d - k)) * b >= (k * d) * b);
        assert(d * (k * b) <= d * ((k + 1) * a));
    }
}

/// A common factor keeps the relative error.
pub proof fn lemma_near_scaled(a: int, b: int, k: int, c: int)
    requires
        near(a, b, k),
        0 <= c,
    ensures
        near(a * c, b * c, k),
{
    let d = PARTS as int;
    let e = distance(a, b);
    assert(distance(a * c, b * c) == e * c) by (nonlinear_arith)
        requires
            e == distance(a, b),
            0 <= c,
    {
        assert(a <= b ==> a * c <= b * c);
        assert(b <= a ==> b * c <= a * c);
        assert((b - a) * c == b * c - a * c);
        assert((a - b) * c == a * c - b * c);
    }
    assert(d * (e * c) <= k * (b * c)) by (nonlinear_arith)
        requires
            d * e <= k * b,
            0 <= c,
    {
        assert((d * e) * c <= (k * b) * c);
    }
}

/// A common positive factor can be taken away.
pub proof fn lemma_near_reduced(a: int, b: int, k: int, c: int)
    requires
        near(a * c, b * c, k),
        0 < c,
    ensures
        near(a, b, k),
{
    let d = PARTS as int;
    let e = distance(a, b);
    assert(distance(a * c, b * c) == e * c) by (nonlinear_arith)
        requires
            e == distance(a, b),
            0 < c,
    {
        assert(a <= b ==> a * c <= b * c);
        assert(b <= a ==> b * c <= a * c);
        assert((b - a) * c == b * c - a * c);
        assert((a - b) * c == a * c - b * c);
    }
    assert(d * e <= k * b) by (nonlinear_arith)
        requires
            d * (e * c) <= k * (b * c),
            0 < c,
    {
        assert((d * e) * c <= (k * b) * c);
    }
}

} // verus!
