//! Vectors tagged with a coordinate frame.

use core::marker::PhantomData;
use vstd::prelude::*;
use vstd::std_specs::cmp::PartialEqSpecImpl;
use crate::frame::Frame;
use crate::scalar::Double;

verus! {

/// A direction or displacement in three dimensions, expressed in the
/// frame `F`.
///
/// It is stored as a point is, and is a type of its own so that a
/// displacement cannot be taken for a position.
#[derive(Debug)]
pub struct Vector3<F: Frame> {
    /// X component in frame `F`.
    pub x: Double,
    /// Y component in frame `F`.
    pub y: Double,
    /// Z component in frame `F`.
    pub z: Double,
    /// The frame tag; it holds no data.
    pub frame: PhantomData<F>,
}

impl<F: Frame> Vector3<F> {
    /// Whether two vectors have equal components, as numbers.
    pub open spec fn same_vector(self, other: Vector3<F>) -> bool {
        &&& self.x.same_number(other.x)
        &&& self.y.same_number(other.y)
        &&& self.z.same_number(other.z)
    }

    /// The vector with the given components in the frame `F`.
    pub fn new(x: Double, y: Double, z: Double) -> (v: Self)
        ensures
            v.x == x,
            v.y == y,
            v.z == z,
    {
        Vector3 { x, y, z, frame: PhantomData }
    }
}

impl<F: Frame> Clone for Vector3<F> {
    fn clone(&self) -> (v: Self)
        ensures
            v == *self,
    {
        *self
    }
}

impl<F: Frame> Copy for Vector3<F> {

}

impl<F: Frame> PartialEq for Vector3<F> {
    /// Equality of the components as numbers, without tolerance.
    fn eq(&self, other: &Vector3<F>) -> (r: bool) {
        self.x == other.x && self.y == other.y && self.z == other.z
    }
}

impl<F: Frame> PartialEqSpecImpl for Vector3<F> {
    open spec fn obeys_eq_spec() -> bool {
        true
    }

    open spec fn eq_spec(&self, other: &Vector3<F>) -> bool {
        self.same_vector(*other)
    }
}

} // verus!
