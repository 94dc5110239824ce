//! Points tagged with a coordinate frame.

use core::marker::PhantomData;
use vstd::prelude::*;
use vstd::std_specs::cmp::PartialEqSpecImpl;
use crate::frame::Frame;
use crate::scalar::Double;

verus! {

/// A point in three dimensions, expressed in the frame `F`.
///
/// The frame is part of the type, so a point of one frame cannot stand
/// where a point of another is expected.
#[derive(Debug)]
pub struct Point3<F: Frame> {
    /// X coordinate in frame `F`.
    pub x: Double,
    /// Y coordinate in frame `F`.
    pub y: Double,
    /// Z coordinate in frame `F`.
    pub z: Double,
    /// The frame tag; it holds no data.
    pub frame: PhantomData<F>,
}

impl<F: Frame> Point3<F> {
    /// Whether two points have equal coordinates, as numbers.
    pub open spec fn same_point(self, other: Point3<F>) -> bool {
        &&& self.x.same_number(other.x)
        &&& self.y.same_number(other.y)
        &&& self.z.same_number(other.z)
    }

    /// Whether all three coordinates are finite.
    pub open spec fn finite(self) -> bool {
        self.x.finite() && self.y.finite() && self.z.finite()
    }

    /// The point with the given coordinates in the frame `F`.
    pub fn new(x: Double, y: Double, z: Double) -> (p: Self)
        ensures
            p.x == x,
            p.y == y,
            p.z == z,
    {
        Point3 { x, y, z, frame: PhantomData }
    }
}

impl<F: Frame> Clone for Point3<F> {
    fn clone(&self) -> (p: Self)
        ensures
            p == *self,
    {
        *self
    }
}

impl<F: Frame> Copy for Point3<F> {

}

impl<F: Frame> PartialEq for Point3<F> {
    /// Equality of the coordinates as numbers, without tolerance.
    fn eq(&self, other: &Point3<F>) -> (r: bool) {
        self.x == other.x && self.y == other.y && self.z == other.z
    }
}

impl<F: Frame> PartialEqSpecImpl for Point3<F> {
    open spec fn obeys_eq_spec() -> bool {
        true
    }

    open spec fn eq_spec(&self, other: &Point3<F>) -> bool {
        self.same_point(*other)
    }
}

} // verus!
