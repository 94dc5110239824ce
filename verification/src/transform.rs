//! Transforms between coordinate frames.

use core::marker::PhantomData;
use vstd::prelude::*;
use vstd::std_specs::cmp::PartialEqSpecImpl;
use crate::frame::Frame;
use crate::point::Point3;
use crate::scalar::Double;

verus! {

/// A transform that takes coordinates in the frame `From` to coordinates
/// in the frame `To`.
///
/// It is the only way from one frame to another: [`Transform::apply_point`]
/// accepts only points of `From` and gives points of `To`. Whether the
/// matrix is a rigid motion is left to the caller.
#[derive(Debug)]
pub struct Transform<From: Frame, To: Frame> {
    /// The homogeneous matrix, row by row.
    pub matrix: [[Double; 4]; 4],
    /// The tag of the source frame; it holds no data.
    pub from: PhantomData<From>,
    /// The tag of the destination frame; it holds no data.
    pub to: PhantomData<To>,
}

impl<From: Frame, To: Frame> Transform<From, To> {
    /// The entry in row `i` and column `j`.
    pub open spec fn entry(self, i: int, j: int) -> Double {
        self.matrix[i][j]
    }

    /// Whether the matrix is the identity but for its last column, whose
    /// first three entries are `tx`, `ty` and `tz`.
    pub open spec fn translates_by(self, tx: Double, ty: Double, tz: Double) -> bool {
        forall|i: int, j: int|
            0 <= i < 4 && 0 <= j < 4 ==> #[trigger] self.entry(i, j) == if i == j {
                Double::one()
            } else if j == 3 && i == 0 {
                tx
            } else if j == 3 && i == 1 {
                ty
            } else if j == 3 && i == 2 {
                tz
            } else {
                Double::positive_zero()
            }
    }

    /// Whether two transforms have equal entries, as numbers.
    pub open spec fn same_transform(self, other: Transform<From, To>) -> bool {
        forall|i: int, j: int|
            0 <= i < 4 && 0 <= j < 4 ==> (#[trigger] self.entry(i, j)).same_number(
                other.entry(i, j),
            )
    }

    /// Whether the matrix is the identity matrix.
    pub open spec fn is_identity(self) -> bool {
        self.translates_by(Double::positive_zero(), Double::positive_zero(), Double::positive_zero())
    }

    /// Coordinate `i` of the image of `p`: row `i` of the matrix times the
    /// homogeneous coordinates of `p`, summed from left to right.
    pub open spec fn image_coordinate(self, i: int, p: Point3<From>) -> Double {
        self.entry(i, 0).times(p.x).plus(self.entry(i, 1).times(p.y)).plus(
            self.entry(i, 2).times(p.z),
        ).plus(self.entry(i, 3))
    }

    /// The image of `p`. The last row of the matrix plays no part.
    pub open spec fn image(self, p: Point3<From>) -> Point3<To> {
        Point3 {
            x: self.image_coordinate(0, p),
            y: self.image_coordinate(1, p),
            z: self.image_coordinate(2, p),
            frame: PhantomData,
        }
    }

    /// The transform that changes no coordinate.
    pub fn identity() -> (t: Self)
        ensures
            t.is_identity(),
    {
        let o = Double::new_zero();
        let i = Double::new_one();
        Transform {
            matrix: [[i, o, o, o], [o, i, o, o], [o, o, i, o], [o, o, o, i]],
            from: PhantomData,
            to: PhantomData,
        }
    }

    /// The transform with the given matrix, which is not examined.
    pub fn from_matrix(matrix: [[Double; 4]; 4]) -> (t: Self)
        ensures
            t.matrix == matrix,
    {
        Transform { matrix, from: PhantomData, to: PhantomData }
    }

    /// The translation by `(tx, ty, tz)`, without rotation.
    pub fn from_translation(tx: Double, ty: Double, tz: Double) -> (t: Self)
        ensures
            t.translates_by(tx, ty, tz),
    {
        let o = Double::new_zero();
        let i = Double::new_one();
        Self::from_matrix([[i, o, o, tx], [o, i, o, ty], [o, o, i, tz], [o, o, o, i]])
    }

    /// Applies the transform to a point of `From`, giving a point of `To`.
    pub fn apply_point(&self, p: Point3<From>) -> (q: Point3<To>)
        ensures
            q == self.image(p),
    {
        let m = &self.matrix;
        let x = p.x;
        let y = p.y;
        let z = p.z;
        let xp = m[0][0].mul(x).add(m[0][1].mul(y)).add(m[0][2].mul(z)).add(m[0][3]);
        let yp = m[1][0].mul(x).add(m[1][1].mul(y)).add(m[1][2].mul(z)).add(m[1][3]);
        let zp = m[2][0].mul(x).add(m[2][1].mul(y)).add(m[2][2].mul(z)).add(m[2][3]);
        Point3::new(xp, yp, zp)
    }
}

impl<From: Frame, To: Frame> Clone for Transform<From, To> {
    fn clone(&self) -> (t: Self)
        ensures
            t == *self,
    {
        *self
    }
}

impl<From: Frame, To: Frame> Copy for Transform<From, To> {

}

impl<From: Frame, To: Frame> PartialEq for Transform<From, To> {
    /// Equality of the entries as numbers, without tolerance.
    fn eq(&self, other: &Transform<From, To>) -> (r: bool) {
        let mut i: usize = 0;
        while i < 4
            invariant
                i <= 4,
                forall|a: int, b: int|
                    0 <= a < i && 0 <= b < 4 ==> (#[trigger] self.entry(a, b)).same_number(
                        other.entry(a, b),
                    ),
            decreases 4 - i,
        {
            let mut j: usize = 0;
            while j < 4
                invariant
                    i < 4,
                    j <= 4,
                    forall|a: int, b: int|
                        0 <= a < i && 0 <= b < 4 ==> (#[trigger] self.entry(a, b)).same_number(
                            other.entry(a, b),
                        ),
                    forall|b: int|
                        0 <= b < j ==> (#[trigger] self.entry(i as int, b)).same_number(
                            other.entry(i as int, b),
                        ),
                decreases 4 - j,
            {
                if !(self.matrix[i][j] == other.matrix[i][j]) {
                    assert(!self.entry(i as int, j as int).same_number(
                        other.entry(i as int, j as int),
                    ));
                    return false;
                }
                j = j + 1;
            }
            i = i + 1;
        }
        true
    }
}

impl<From: Frame, To: Frame> PartialEqSpecImpl for Transform<From, To> {
    open spec fn obeys_eq_spec() -> bool {
        true
    }

    open spec fn eq_spec(&self, other: &Transform<From, To>) -> bool {
        self.same_transform(*other)
    }
}

} // verus!
