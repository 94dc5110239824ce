//! Frames are checked by the compiler: a transform accepts only points of
//! its source frame.

use core::any::TypeId;
use spatial_typestate::{Frame, Point3, Quantity, Meters, Radians, Transform, Unit};

#[derive(Debug, Clone, Copy, PartialEq, Eq)]
pub struct World;

impl Frame for World {}

#[derive(Debug, Clone, Copy, PartialEq, Eq)]
pub struct Body;

impl Frame for Body {}

/// The type that a method of `T` takes and the type that it gives.
fn signature_of<T, P: 'static, Q: 'static>(_: fn(&T, P) -> Q) -> (TypeId, TypeId) {
    (TypeId::of::<P>(), TypeId::of::<Q>())
}

/// The types that a method on two values of one type takes and gives.
fn operands_of<P: 'static, R: 'static, Q: 'static>(_: fn(P, R) -> Q) -> (TypeId, TypeId, TypeId) {
    (TypeId::of::<P>(), TypeId::of::<R>(), TypeId::of::<Q>())
}

fn unit_of<U: Unit>(_: &Quantity<U>) -> TypeId {
    TypeId::of::<U>()
}

#[test]
fn frame_mismatch_does_not_compile() {
    // A point of the body, and a transform from the world to the body.
    let p_body = TypeId::of::<Point3<Body>>();
    let (takes, gives) = signature_of(Transform::<World, Body>::apply_point);

    // `apply_point` expects a point of the world here: to hand it the point
    // of the body is an error of types.
    assert_ne!(takes, p_body);
    assert_eq!(takes, TypeId::of::<Point3<World>>());
    assert_eq!(gives, TypeId::of::<Point3<Body>>());
}

#[test]
fn the_image_is_not_a_point_of_the_source_frame() {
    let (takes, gives) = signature_of(Transform::<Body, World>::apply_point);
    assert_eq!(takes, TypeId::of::<Point3<Body>>());
    assert_eq!(gives, TypeId::of::<Point3<World>>());
    assert_ne!(gives, takes);
    let (takes, gives) = signature_of(Transform::<World, World>::apply_point);
    assert_eq!(takes, gives);
}

#[test]
fn quantities_combine_only_with_their_own_unit() {
    let (left, right, sum) = operands_of(Quantity::<Meters>::add);
    assert_eq!(left, TypeId::of::<Quantity<Meters>>());
    assert_eq!(right, TypeId::of::<Quantity<Meters>>());
    assert_eq!(sum, TypeId::of::<Quantity<Meters>>());
    assert_ne!(right, TypeId::of::<Quantity<Radians>>());
    let (left, right, difference) = operands_of(Quantity::<Radians>::sub);
    assert_eq!((left, right, difference), (TypeId::of::<Quantity<Radians>>(), TypeId::of::<Quantity<Radians>>(), TypeId::of::<Quantity<Radians>>()));
    let q: Quantity<Meters> = Quantity::new(spatial_typestate::Double::new_one());
    assert_eq!(unit_of(&q), TypeId::of::<Meters>());
}
