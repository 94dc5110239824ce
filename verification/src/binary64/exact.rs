//! Exact results, before rounding.
//!
//! The exact result of an arithmetic operation on binary64 values is a
//! nonnegative real number that is either a quotient of two naturals or the
//! square root of a natural. Rounding only ever asks how such a number
//! compares with a dyadic rational `k / 2^s`, and that question has an
//! answer in integers.

use vstd::prelude::*;
use vstd::arithmetic::power2::{pow2, lemma_pow2_pos, lemma_pow2_adds};

verus! {

/// A nonnegative real number, in units of `2^-1074`.
pub enum Exact {
    /// The quotient `num / den`.
    Ratio { num: nat, den: nat },
    /// The square root of `square`.
    Root { square: nat },
}

impl Exact {
    /// A quotient needs a positive denominator.
    pub open spec fn valid(self) -> bool {
        self matches Exact::Ratio { num, den } ==> den > 0
    }

    /// `k / 2^s <= self`.
    pub open spec fn at_least(self, k: nat, s: nat) -> bool {
        match self {
            Exact::Ratio { num, den } => k * den <= num * pow2(s),
            Exact::Root { square } => k * k <= square * pow2(2 * s),
        }
    }

    /// `self <= k / 2^s`.
    pub open spec fn at_most(self, k: nat, s: nat) -> bool {
        match self {
            Exact::Ratio { num, den } => num * pow2(s) <= k * den,
            Exact::Root { square } => square * pow2(2 * s) <= k * k,
        }
    }

    /// What is at least `b / 2^s` is at least every smaller `a / 2^s`, and
    /// what is at most `a / 2^s` is at most every larger `b / 2^s`.
    pub proof fn lemma_order(self, a: nat, b: nat, s: nat)
        requires
            a <= b,
        ensures
            self.at_least(b, s) ==> self.at_least(a, s),
            self.at_most(a, s) ==> self.at_most(b, s),
    {
        match self {
            Exact::Ratio { num, den } => {
                assert(a * den <= b * den) by (nonlinear_arith)
                    requires
                        a <= b,
                ;
            },
            Exact::Root { square } => {
                assert(a * a <= b * b) by (nonlinear_arith)
                    requires
                        a <= b,
                ;
            },
        }
    }

    /// Nothing is at most `a / 2^s` and at least a larger `b / 2^s`.
    pub proof fn lemma_apart(self, a: nat, b: nat, s: nat)
        requires
            self.valid(),
            a < b,
        ensures
            !(self.at_most(a, s) && self.at_least(b, s)),
    {
        match self {
            Exact::Ratio { num, den } => {
                assert(a * den < b * den) by (nonlinear_arith)
                    requires
                        a < b,
                        den > 0,
                ;
            },
            Exact::Root { square } => {
                assert(a * a < b * b) by (nonlinear_arith)
                    requires
                        a < b,
                ;
            },
        }
    }

    /// `k / 2^s` and `(k * 2^j) / 2^(s + j)` are the same dyadic rational.
    pub proof fn lemma_rescale(self, k: nat, s: nat, j: nat)
        ensures
            self.at_least(k * pow2(j), s + j) == self.at_least(k, s),
            self.at_most(k * pow2(j), s + j) == self.at_most(k, s),
    {
        let p = pow2(j);
        lemma_pow2_pos(j);
        match self {
            Exact::Ratio { num, den } => {
                let ps = pow2(s);
                lemma_pow2_adds(s, j);
                let l = k * den;
                let r = num * ps;
                assert((k * p) * den == l * p) by (nonlinear_arith)
                    requires
                        l == k * den,
                ;
                assert(num * (ps * p) == r * p) by (nonlinear_arith)
                    requires
                        r == num * ps,
                ;
                assert((l * p <= r * p) == (l <= r)) by (nonlinear_arith)
                    requires
                        p > 0,
                ;
                assert((r * p <= l * p) == (r <= l)) by (nonlinear_arith)
                    requires
                        p > 0,
                ;
            },
            Exact::Root { square } => {
                let ps = pow2(2 * s);
                lemma_pow2_adds(2 * s, 2 * j);
                lemma_pow2_adds(j, j);
                assert(2 * (s + j) == 2 * s + 2 * j);
                let pp = pow2(2 * j);
                lemma_pow2_pos(2 * j);
                let l = k * k;
                let r = square * ps;
                assert((k * p) * (k * p) == l * pp) by (nonlinear_arith)
                    requires
                        l == k * k,
                        pp == p * p,
                ;
                assert(square * (ps * pp) == r * pp) by (nonlinear_arith)
                    requires
                        r == square * ps,
                ;
                assert((l * pp <= r * pp) == (l <= r)) by (nonlinear_arith)
                    requires
                        pp > 0,
                ;
                assert((r * pp <= l * pp) == (r <= l)) by (nonlinear_arith)
                    requires
                        pp > 0,
                ;
            },
        }
    }
}

} // verus!
