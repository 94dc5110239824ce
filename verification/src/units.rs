//! Units carried in the type system.

use core::marker::PhantomData;
use vstd::prelude::*;
use vstd::std_specs::cmp::PartialEqSpecImpl;
use crate::scalar::Double;

verus! {

/// Marker trait for a physical unit.
///
/// A unit is a zero-sized type that implements this trait; everything it
/// means is carried by the type itself.
pub trait Unit: 'static {}

/// Marker trait for units of length.
pub trait LengthUnit: Unit {}

/// Marker trait for units of angle.
pub trait AngleUnit: Unit {}

/// Meters, a unit of length.
#[derive(Debug, Clone, Copy, PartialEq, Eq)]
pub struct Meters;

/// Radians, a unit of angle.
#[derive(Debug, Clone, Copy, PartialEq, Eq)]
pub struct Radians;

/// Degrees, a unit of angle.
#[derive(Debug, Clone, Copy, PartialEq, Eq)]
pub struct Degrees;

impl Unit for Meters {}

impl LengthUnit for Meters {}

impl Unit for Radians {}

impl AngleUnit for Radians {}

impl Unit for Degrees {}

impl AngleUnit for Degrees {}

/// A number tagged with the unit `U`.
///
/// Two quantities can be added or subtracted only if they have one unit;
/// nothing converts between units.
#[derive(Debug)]
pub struct Quantity<U: Unit> {
    /// The number.
    pub value: Double,
    /// The unit tag; it holds no data.
    pub unit: PhantomData<U>,
}

impl<U: Unit> Quantity<U> {
    /// The quantity of `value` units `U`.
    pub fn new(value: Double) -> (q: Self)
        ensures
            q.value == value,
    {
        Quantity { value, unit: PhantomData }
    }

    /// The number, without its unit.
    pub fn get(self) -> (value: Double)
        ensures
            value == self.value,
    {
        self.value
    }

    /// The sum of two quantities of one unit.
    pub fn add(self, rhs: Self) -> (q: Self)
        ensures
            q.value == self.value.plus(rhs.value),
    {
        Self::new(self.value.add(rhs.value))
    }

    /// The difference of two quantities of one unit.
    pub fn sub(self, rhs: Self) -> (q: Self)
        ensures
            q.value == self.value.minus(rhs.value),
    {
        Self::new(self.value.sub(rhs.value))
    }
}

impl<U: Unit> Clone for Quantity<U> {
    fn clone(&self) -> (q: Self)
        ensures
            q == *self,
    {
        *self
    }
}

impl<U: Unit> Copy for Quantity<U> {

}

impl<U: Unit> PartialEq for Quantity<U> {
    /// Equality of the numbers, without tolerance.
    fn eq(&self, other: &Quantity<U>) -> (r: bool) {
        self.value == other.value
    }
}

impl<U: Unit> PartialEqSpecImpl for Quantity<U> {
    open spec fn obeys_eq_spec() -> bool {
        true
    }

    open spec fn eq_spec(&self, other: &Quantity<U>) -> bool {
        self.value.same_number(other.value)
    }
}

} // verus!
