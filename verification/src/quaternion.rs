//! Unit quaternions tagged with a coordinate frame.

use core::marker::PhantomData;
use vstd::prelude::*;
use vstd::std_specs::cmp::PartialEqSpecImpl;
use vstd::arithmetic::power2::pow2;
use crate::binary64::accuracy::{distance, one};
use crate::errors::SpatialError;
use crate::frame::Frame;
use crate::laws::law_checked_quaternion_is_unit;
use crate::scalar::Double;

verus! {

/// A quaternion `(x, y, z, w)` of norm one, associated with the frame `F`.
///
/// [`UnitQuat::try_from_components`] establishes the norm by dividing the
/// components by their norm; [`UnitQuat::new_unchecked`] leaves it to the
/// caller.
#[derive(Debug)]
pub struct UnitQuat<F: Frame> {
    /// X component of the quaternion.
    pub x: Double,
    /// Y component of the quaternion.
    pub y: Double,
    /// Z component of the quaternion.
    pub z: Double,
    /// W component, the scalar part, of the quaternion.
    pub w: Double,
    /// The frame tag; it holds no data.
    pub frame: PhantomData<F>,
}

/// The sum of the squares of four components, each square and each sum
/// rounded, summed from left to right.
pub open spec fn norm_squared(x: Double, y: Double, z: Double, w: Double) -> Double {
    x.times(x).plus(y.times(y)).plus(z.times(z)).plus(w.times(w))
}

/// The norm of four components: the rounded square root of
/// [`norm_squared`].
pub open spec fn norm(x: Double, y: Double, z: Double, w: Double) -> Double {
    norm_squared(x, y, z, w).root()
}

/// Whether all four components are finite.
pub open spec fn all_finite(x: Double, y: Double, z: Double, w: Double) -> bool {
    x.finite() && y.finite() && z.finite() && w.finite()
}

/// Whether four components are such that dividing them by their norm gives
/// norm one: all are finite and of absolute value at most `2^500`, and one
/// is of absolute value at least `2^-500`. Then no square is too large to
/// be finite, and the sum of the squares is large enough to keep its
/// digits.
pub open spec fn normalizable(x: Double, y: Double, z: Double, w: Double) -> bool {
    &&& x.within(pow2(500)) && y.within(pow2(500)) && z.within(pow2(500)) && w.within(pow2(500))
    &&& x.size() >= pow2(574) || y.size() >= pow2(574) || z.size() >= pow2(574) || w.size()
        >= pow2(574)
}

impl<F: Frame> UnitQuat<F> {
    /// Whether two quaternions have equal components, as numbers.
    pub open spec fn same_quaternion(self, other: UnitQuat<F>) -> bool {
        &&& self.x.same_number(other.x)
        &&& self.y.same_number(other.y)
        &&& self.z.same_number(other.z)
        &&& self.w.same_number(other.w)
    }

    /// The sum of the squares of the components, exactly, in units of
    /// `2^-2148`; meaningful for finite components.
    pub open spec fn squared_norm(self) -> int {
        self.x.units() * self.x.units() + self.y.units() * self.y.units() + self.z.units()
            * self.z.units() + self.w.units() * self.w.units()
    }

    /// Whether the components are finite and the sum of their squares lies
    /// within `10^-9` of one.
    pub open spec fn unit(self) -> bool {
        &&& all_finite(self.x, self.y, self.z, self.w)
        &&& 1_000_000_000 * distance(self.squared_norm(), one() * one()) <= one() * one()
    }

    /// The given components, each divided by the norm of the four.
    pub open spec fn normalized(x: Double, y: Double, z: Double, w: Double) -> Self {
        UnitQuat {
            x: x.over(norm(x, y, z, w)),
            y: y.over(norm(x, y, z, w)),
            z: z.over(norm(x, y, z, w)),
            w: w.over(norm(x, y, z, w)),
            frame: PhantomData,
        }
    }

    /// The quaternion with the given components, each divided by the norm
    /// of the four.
    ///
    /// A component that is not finite is reported as
    /// [`SpatialError::NonFinite`], before anything is computed. A sum of
    /// squares that is zero is reported as
    /// [`SpatialError::ZeroNormQuaternion`]; the sum is compared with zero
    /// exactly, not within a tolerance. Components that are
    /// [`normalizable`] give a quaternion that is a [`UnitQuat::unit`].
    pub fn try_from_components(x: Double, y: Double, z: Double, w: Double) -> (r: Result<
        Self,
        SpatialError,
    >)
        ensures
            !all_finite(x, y, z, w) <==> r == Err::<Self, SpatialError>(SpatialError::NonFinite),
            all_finite(x, y, z, w) && norm_squared(x, y, z, w).zero() <==> r == Err::<
                Self,
                SpatialError,
            >(SpatialError::ZeroNormQuaternion),
            all_finite(x, y, z, w) && !norm_squared(x, y, z, w).zero() <==> r is Ok,
            r matches Ok(q) ==> q == Self::normalized(x, y, z, w),
            normalizable(x, y, z, w) ==> r is Ok && r->Ok_0.unit(),
    {
        proof {
            if normalizable(x, y, z, w) {
                law_checked_quaternion_is_unit::<F>(x, y, z, w);
            }
        }
        if !x.is_finite() || !y.is_finite() || !z.is_finite() || !w.is_finite() {
            return Err(SpatialError::NonFinite);
        }
        let norm_sq = x.mul(x).add(y.mul(y)).add(z.mul(z)).add(w.mul(w));
        if norm_sq.is_zero() {
            return Err(SpatialError::ZeroNormQuaternion);
        }
        let norm = norm_sq.sqrt();
        Ok(UnitQuat { x: x.div(norm), y: y.div(norm), z: z.div(norm), w: w.div(norm), frame: PhantomData })
    }

    /// The quaternion with the given components, as they are. That they
    /// have norm one is the caller's concern.
    pub fn new_unchecked(x: Double, y: Double, z: Double, w: Double) -> (q: Self)
        ensures
            q.x == x,
            q.y == y,
            q.z == z,
            q.w == w,
    {
        UnitQuat { x, y, z, w, frame: PhantomData }
    }

    /// The identity rotation, `(0, 0, 0, 1)`.
    pub fn identity() -> (q: Self)
        ensures
            q.x == Double::positive_zero(),
            q.y == Double::positive_zero(),
            q.z == Double::positive_zero(),
            q.w == Double::one(),
            q.unit(),
    {
        let q = UnitQuat {
            x: Double::new_zero(),
            y: Double::new_zero(),
            z: Double::new_zero(),
            w: Double::new_one(),
            frame: PhantomData,
        };
        proof {
            crate::binary64::encoding::lemma_zero_and_one();
            let u = one();
            assert(q.x.units() == 0 && q.y.units() == 0 && q.z.units() == 0 && q.w.units() == u);
            assert(0 * 0 + 0 * 0 + 0 * 0 + u * u == u * u && u * u >= 0) by (nonlinear_arith);
        }
        q
    }
}

impl<F: Frame> Clone for UnitQuat<F> {
    fn clone(&self) -> (q: Self)
        ensures
            q == *self,
    {
        *self
    }
}

impl<F: Frame> Copy for UnitQuat<F> {

}

impl<F: Frame> PartialEq for UnitQuat<F> {
    /// Equality of the components as numbers, without tolerance.
    fn eq(&self, other: &UnitQuat<F>) -> (r: bool) {
        self.x == other.x && self.y == other.y && self.z == other.z && self.w == other.w
    }
}

impl<F: Frame> PartialEqSpecImpl for UnitQuat<F> {
    open spec fn obeys_eq_spec() -> bool {
        true
    }

    open spec fn eq_spec(&self, other: &UnitQuat<F>) -> bool {
        self.same_quaternion(*other)
    }
}

} // verus!
