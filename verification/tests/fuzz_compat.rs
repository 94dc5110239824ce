//! An entry point in the shape a fuzzer wants, and one run of it.

use spatial_typestate::{Double, Frame, Point3, Transform};

#[derive(Debug, Clone, Copy, PartialEq, Eq)]
pub struct World;

impl Frame for World {}

/// Translates a point and checks that finite inputs gave no NaN.
pub fn fuzz_apply_point_with_translation(x: f64, y: f64, z: f64, tx: f64, ty: f64, tz: f64) {
    if !x.is_finite()
        || !y.is_finite()
        || !z.is_finite()
        || !tx.is_finite()
        || !ty.is_finite()
        || !tz.is_finite()
    {
        return;
    }

    let p = Point3::<World>::new(
        Double::from_bits(x.to_bits()),
        Double::from_bits(y.to_bits()),
        Double::from_bits(z.to_bits()),
    );
    let t = Transform::<World, World>::from_translation(
        Double::from_bits(tx.to_bits()),
        Double::from_bits(ty.to_bits()),
        Double::from_bits(tz.to_bits()),
    );

    let q = t.apply_point(p);

    assert!(f64::from_bits(q.x.to_bits()).is_finite());
    assert!(f64::from_bits(q.y.to_bits()).is_finite());
    assert!(f64::from_bits(q.z.to_bits()).is_finite());
}

#[test]
fn fuzz_compat_smoke_test() {
    fuzz_apply_point_with_translation(1.0, 2.0, 3.0, 10.0, -5.0, 0.5);
}
