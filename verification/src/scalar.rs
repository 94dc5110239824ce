//! Double-precision numbers.
//!
//! [`Double`] is an IEEE 754 binary64 value held by its encoding. Its
//! arithmetic is computed on integers and is correctly rounded: every
//! result is the exact result rounded to nearest, ties to even. Where the
//! standard leaves the choice of a NaN open, the result is the one quiet
//! NaN [`crate::binary64::encoding::NAN`].

use vstd::prelude::*;
use vstd::std_specs::cmp::PartialEqSpecImpl;
use vstd::arithmetic::power2::pow2;
use crate::binary64::accuracy::{distance, size, value};
use crate::binary64::encoding::{INFINITY, ONE, is_finite, is_nan, is_zero, magnitude, split};
use crate::binary64::identities::same;
use crate::binary64::product::{multiply, product};
use crate::binary64::quotient::{divide, quotient};
use crate::binary64::root::square_root;
use crate::binary64::sum::{difference, subtract, sum};

verus! {

/// A binary64 value.
#[derive(Clone, Copy, Debug)]
pub struct Double {
    /// The encoding: sign, biased exponent and fraction.
    pub bits: u64,
}

impl Double {
    /// Whether the value is a NaN.
    pub open spec fn nan(self) -> bool {
        is_nan(self.bits)
    }

    /// Whether the value is neither infinite nor a NaN.
    pub open spec fn finite(self) -> bool {
        is_finite(self.bits)
    }

    /// Whether the value is a zero, of either sign.
    pub open spec fn zero(self) -> bool {
        is_zero(self.bits)
    }

    /// Whether two values are equal as numbers: neither is a NaN, and they
    /// have one encoding or are both zeros.
    pub open spec fn same_number(self, other: Double) -> bool {
        same(self.bits, other.bits)
    }

    /// The number one.
    pub open spec fn one() -> Double {
        Double { bits: ONE }
    }

    /// Positive zero.
    pub open spec fn positive_zero() -> Double {
        Double { bits: 0 }
    }

    /// The number, in units of `2^-1074`; meaningful for finite values.
    pub open spec fn units(self) -> int {
        value(self.bits)
    }

    /// The absolute value, in units of `2^-1074`; meaningful for finite
    /// values.
    pub open spec fn size(self) -> int {
        size(magnitude(self.bits))
    }

    /// Whether the value is finite and of absolute value at most `bound`.
    pub open spec fn within(self, bound: nat) -> bool {
        self.finite() && distance(0, self.units()) <= bound * pow2(1074)
    }

    /// The sum, correctly rounded; see [`sum`].
    pub open spec fn plus(self, rhs: Double) -> Double {
        Double { bits: sum(self.bits, rhs.bits) }
    }

    /// The difference, correctly rounded; see [`difference`].
    pub open spec fn minus(self, rhs: Double) -> Double {
        Double { bits: difference(self.bits, rhs.bits) }
    }

    /// The product, correctly rounded; see [`product`].
    pub open spec fn times(self, rhs: Double) -> Double {
        Double { bits: product(self.bits, rhs.bits) }
    }

    /// The quotient, correctly rounded; see [`quotient`].
    pub open spec fn over(self, rhs: Double) -> Double {
        Double { bits: quotient(self.bits, rhs.bits) }
    }

    /// The square root, correctly rounded; see [`square_root`].
    pub open spec fn root(self) -> Double {
        Double { bits: square_root(self.bits) }
    }

    /// The value with the given encoding.
    pub fn from_bits(bits: u64) -> (r: Double)
        ensures
            r.bits == bits,
    {
        Double { bits }
    }

    /// The encoding of the value.
    pub fn to_bits(self) -> (r: u64)
        ensures
            r == self.bits,
    {
        self.bits
    }

    /// Positive zero.
    pub fn new_zero() -> (r: Double)
        ensures
            r == Double::positive_zero(),
    {
        Double { bits: 0 }
    }

    /// The number one.
    pub fn new_one() -> (r: Double)
        ensures
            r == Double::one(),
    {
        Double { bits: ONE }
    }

    /// Whether the value is a NaN.
    pub fn is_nan(self) -> (r: bool)
        ensures
            r == self.nan(),
    {
        let (_, m) = split(self.bits);
        m > INFINITY
    }

    /// Whether the value is neither infinite nor a NaN.
    pub fn is_finite(self) -> (r: bool)
        ensures
            r == self.finite(),
    {
        let (_, m) = split(self.bits);
        m < INFINITY
    }

    /// Whether the value is a zero, of either sign.
    pub fn is_zero(self) -> (r: bool)
        ensures
            r == self.zero(),
    {
        let (_, m) = split(self.bits);
        m == 0
    }

    /// The sum of two values, correctly rounded.
    pub fn add(self, rhs: Double) -> (r: Double)
        ensures
            r == self.plus(rhs),
    {
        Double { bits: crate::binary64::sum::add(self.bits, rhs.bits) }
    }

    /// The difference of two values, correctly rounded.
    pub fn sub(self, rhs: Double) -> (r: Double)
        ensures
            r == self.minus(rhs),
    {
        Double { bits: subtract(self.bits, rhs.bits) }
    }

    /// The product of two values, correctly rounded.
    pub fn mul(self, rhs: Double) -> (r: Double)
        ensures
            r == self.times(rhs),
    {
        Double { bits: multiply(self.bits, rhs.bits) }
    }

    /// The quotient of two values, correctly rounded.
    pub fn div(self, rhs: Double) -> (r: Double)
        ensures
            r == self.over(rhs),
    {
        Double { bits: divide(self.bits, rhs.bits) }
    }

    /// The square root of the value, correctly rounded.
    pub fn sqrt(self) -> (r: Double)
        ensures
            r == self.root(),
    {
        Double { bits: crate::binary64::root::sqrt(self.bits) }
    }
}

/// Whether two numbers, in units of `2^-1074`, differ by at most `10^-9`.
pub open spec fn close(a: int, b: int) -> bool {
    1_000_000_000 * distance(a, b) <= pow2(1074)
}

impl PartialEq for Double {
    /// Equality of numbers: a NaN equals nothing, and the two zeros are
    /// equal.
    fn eq(&self, other: &Double) -> (r: bool) {
        let (_, a) = split(self.bits);
        let (_, b) = split(other.bits);
        a <= INFINITY && b <= INFINITY && (self.bits == other.bits || (a == 0 && b == 0))
    }
}

impl PartialEqSpecImpl for Double {
    open spec fn obeys_eq_spec() -> bool {
        true
    }

    open spec fn eq_spec(&self, other: &Double) -> bool {
        self.same_number(*other)
    }
}

} // verus!
