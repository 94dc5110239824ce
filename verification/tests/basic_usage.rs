//! The core types through the public interface: frames, points, vectors,
//! transforms and quantities.

use core::any::TypeId;
use spatial_typestate::{Double, Frame, Meters, Point3, Quantity, Radians, Transform, Vector3};

#[derive(Debug, Clone, Copy, PartialEq, Eq)]
pub struct World;

impl Frame for World {}

#[derive(Debug, Clone, Copy, PartialEq, Eq)]
pub struct Body;

impl Frame for Body {}

#[derive(Debug, Clone, Copy, PartialEq, Eq)]
pub struct Sensor;

impl Frame for Sensor {}

fn num(v: f64) -> Double {
    Double::from_bits(v.to_bits())
}

fn val(d: Double) -> f64 {
    f64::from_bits(d.to_bits())
}

#[test]
fn point_and_vector_construction() {
    let p_world: Point3<World> = Point3::new(num(1.0), num(2.0), num(3.0));
    let v_body: Vector3<Body> = Vector3::new(num(0.0), num(1.0), num(0.0));

    assert_eq!(val(p_world.x), 1.0);
    assert_eq!(val(p_world.y), 2.0);
    assert_eq!(val(p_world.z), 3.0);

    assert_eq!(val(v_body.x), 0.0);
    assert_eq!(val(v_body.y), 1.0);
    assert_eq!(val(v_body.z), 0.0);
}

#[test]
fn identity_transform_preserves_point() {
    let p_body: Point3<Body> = Point3::new(num(1.0), num(0.0), num(-2.0));
    let t_body_world: Transform<Body, World> = Transform::identity();

    let p_world = t_body_world.apply_point(p_body);

    // Identity should preserve coordinates exactly.
    assert_eq!(val(p_world.x), 1.0);
    assert_eq!(val(p_world.y), 0.0);
    assert_eq!(val(p_world.z), -2.0);
}

#[test]
fn quantities_add_and_subtract_with_same_unit() {
    let a: Quantity<Meters> = Quantity::new(num(100.0));
    let b: Quantity<Meters> = Quantity::new(num(50.0));

    let sum = a.add(b);
    let diff = a.sub(b);

    assert_eq!(val(sum.get()), 150.0);
    assert_eq!(val(diff.get()), 50.0);

    let angle: Quantity<Radians> = Quantity::new(num(core::f64::consts::FRAC_PI_2));
    assert!(val(angle.get()) > 0.0);
}

#[test]
fn a_sensor_point_can_be_taken_to_the_world_through_the_body() {
    let p: Point3<Sensor> = Point3::new(num(0.5), num(-0.25), num(4.0));
    let to_body: Transform<Sensor, Body> = Transform::from_translation(num(1.0), num(2.0), num(3.0));
    let to_world: Transform<Body, World> = Transform::from_translation(num(10.0), num(0.0), num(-3.0));
    let q: Point3<World> = to_world.apply_point(to_body.apply_point(p));
    assert_eq!(val(q.x), 11.5);
    assert_eq!(val(q.y), 1.75);
    assert_eq!(val(q.z), 4.0);
}

#[test]
fn values_of_different_frames_and_units_are_different_types() {
    assert_ne!(TypeId::of::<Point3<World>>(), TypeId::of::<Point3<Body>>());
    assert_ne!(TypeId::of::<Point3<World>>(), TypeId::of::<Vector3<World>>());
    assert_ne!(TypeId::of::<Transform<World, Body>>(), TypeId::of::<Transform<Body, World>>());
    assert_ne!(TypeId::of::<Quantity<Meters>>(), TypeId::of::<Quantity<Radians>>());
    // The tags take no room.
    assert_eq!(core::mem::size_of::<Point3<World>>(), 3 * core::mem::size_of::<u64>());
    assert_eq!(core::mem::size_of::<Transform<World, Body>>(), 16 * core::mem::size_of::<u64>());
}

#[test]
fn a_transform_gives_points_of_its_destination() {
    fn only_world(p: Point3<World>) -> Point3<World> {
        p
    }
    let t: Transform<Body, World> = Transform::identity();
    let q = only_world(t.apply_point(Point3::<Body>::new(num(1.0), num(2.0), num(3.0))));
    assert_eq!(val(q.z), 3.0);
}

#[test]
fn copies_are_independent_values() {
    let p: Point3<World> = Point3::new(num(1.0), num(2.0), num(3.0));
    let mut q = p;
    q.x = num(9.0);
    assert_eq!(val(p.x), 1.0);
    assert_eq!(val(q.x), 9.0);
    assert!(p == p.clone());
    assert!(p != q);
}

#[test]
fn equality_is_equality_of_numbers() {
    let zero: Point3<World> = Point3::new(num(0.0), num(0.0), num(0.0));
    let minus: Point3<World> = Point3::new(num(-0.0), num(0.0), num(-0.0));
    assert!(zero == minus);
    let nan: Point3<World> = Point3::new(num(f64::NAN), num(0.0), num(0.0));
    assert!(nan != nan);
    let v: Vector3<Body> = Vector3::new(num(1.0), num(2.0), num(3.0));
    let w: Vector3<Body> = Vector3::new(num(1.0), num(2.0), num(3.0000000000000004));
    assert!(v == v);
    assert!(v != w);
    let a: Quantity<Meters> = Quantity::new(num(1.5));
    let b: Quantity<Meters> = Quantity::new(num(1.5));
    assert!(a == b);
}
