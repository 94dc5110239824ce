//! The invariant of the unit quaternion.

use spatial_typestate::{Double, Frame, SpatialError, UnitQuat};

#[derive(Debug, Clone, Copy, PartialEq, Eq)]
pub struct World;

impl Frame for World {}

fn num(v: f64) -> Double {
    Double::from_bits(v.to_bits())
}

fn val(d: Double) -> f64 {
    f64::from_bits(d.to_bits())
}

fn approx_eq(a: f64, b: f64, eps: f64) -> bool {
    (a - b).abs() <= eps
}

fn norm_sq(q: &UnitQuat<World>) -> f64 {
    let (x, y, z, w) = (val(q.x), val(q.y), val(q.z), val(q.w));
    x * x + y * y + z * z + w * w
}

/// What the machine's floating point gives for the same construction.
fn reference(x: f64, y: f64, z: f64, w: f64) -> Result<[f64; 4], SpatialError> {
    if !x.is_finite() || !y.is_finite() || !z.is_finite() || !w.is_finite() {
        return Err(SpatialError::NonFinite);
    }
    let n2 = x * x + y * y + z * z + w * w;
    if n2 == 0.0 {
        return Err(SpatialError::ZeroNormQuaternion);
    }
    let n = n2.sqrt();
    Ok([x / n, y / n, z / n, w / n])
}

#[test]
fn identity_quaternion_is_unit_length() {
    let q: UnitQuat<World> = UnitQuat::identity();

    assert!(approx_eq(norm_sq(&q), 1.0, 1e-12));
}

#[test]
fn try_from_components_normalizes_quaternion() {
    // 2 * identity quaternion, not unit length yet.
    let q = UnitQuat::<World>::try_from_components(num(0.0), num(0.0), num(0.0), num(2.0)).unwrap();

    assert!(approx_eq(norm_sq(&q), 1.0, 1e-12));
    assert!(approx_eq(val(q.w), 1.0, 1e-12)); // normalized
}

#[test]
fn zero_norm_quaternion_is_rejected() {
    let result = UnitQuat::<World>::try_from_components(num(0.0), num(0.0), num(0.0), num(0.0));
    assert!(matches!(result, Err(SpatialError::ZeroNormQuaternion)));
}

#[test]
fn non_finite_quaternion_is_rejected() {
    let result = UnitQuat::<World>::try_from_components(num(f64::NAN), num(0.0), num(0.0), num(1.0));
    assert!(matches!(result, Err(SpatialError::NonFinite)));
}

#[test]
fn identity_quaternion_has_the_components_of_the_identity() {
    let q: UnitQuat<World> = UnitQuat::identity();
    assert_eq!((val(q.x), val(q.y), val(q.z), val(q.w)), (0.0, 0.0, 0.0, 1.0));
}

#[test]
fn unchecked_construction_keeps_the_components() {
    let q: UnitQuat<World> = UnitQuat::new_unchecked(num(3.0), num(-4.0), num(f64::INFINITY), num(0.5));
    assert_eq!((val(q.x), val(q.y), val(q.z), val(q.w)), (3.0, -4.0, f64::INFINITY, 0.5));
}

#[test]
fn normalizing_gives_exact_components() {
    let q = UnitQuat::<World>::try_from_components(num(1.0), num(2.0), num(2.0), num(4.0)).unwrap();
    assert_eq!((val(q.x), val(q.y), val(q.z), val(q.w)), (0.2, 0.4, 0.4, 0.8));
    let q = UnitQuat::<World>::try_from_components(num(3.0), num(0.0), num(-4.0), num(0.0)).unwrap();
    assert_eq!((val(q.x), val(q.y), val(q.z), val(q.w)), (0.6, 0.0, -0.8, 0.0));
}

#[test]
fn every_infinity_and_nan_is_rejected_in_every_place() {
    for bad in [f64::NAN, f64::INFINITY, f64::NEG_INFINITY] {
        for place in 0..4 {
            let mut c = [0.0, 0.0, 0.0, 0.0];
            c[place] = bad;
            let r = UnitQuat::<World>::try_from_components(num(c[0]), num(c[1]), num(c[2]), num(c[3]));
            assert!(matches!(r, Err(SpatialError::NonFinite)));
        }
    }
}

#[test]
fn the_finiteness_check_comes_before_the_norm_check() {
    let r = UnitQuat::<World>::try_from_components(num(0.0), num(0.0), num(0.0), num(f64::INFINITY));
    assert!(matches!(r, Err(SpatialError::NonFinite)));
}

#[test]
fn negative_zeros_have_zero_norm() {
    let r = UnitQuat::<World>::try_from_components(num(-0.0), num(0.0), num(-0.0), num(-0.0));
    assert!(matches!(r, Err(SpatialError::ZeroNormQuaternion)));
}

#[test]
fn the_zero_check_is_exact() {
    // Components so small that every square underflows to zero.
    let r = UnitQuat::<World>::try_from_components(num(1e-200), num(0.0), num(0.0), num(-1e-190));
    assert!(matches!(r, Err(SpatialError::ZeroNormQuaternion)));
    // A square that is the smallest positive number is not zero.
    let r = UnitQuat::<World>::try_from_components(num(0.0), num(3e-162), num(0.0), num(0.0));
    let q = r.unwrap();
    assert_eq!(val(q.y), 3e-162 / (3e-162f64 * 3e-162f64).sqrt());
}

#[test]
fn construction_agrees_with_the_machine() {
    let mut s: u64 = 0x2545_f491_4f6c_dd1d;
    let mut next = || {
        s ^= s << 13;
        s ^= s >> 7;
        s ^= s << 17;
        s
    };
    for round in 0..20_000 {
        let mut c = [0.0f64; 4];
        for v in c.iter_mut() {
            let w = next();
            *v = if round % 3 == 0 {
                f64::from_bits(w)
            } else {
                ((w >> 11) as f64 / (1u64 << 53) as f64 - 0.5) * 2e6
            };
        }
        let ours = UnitQuat::<World>::try_from_components(num(c[0]), num(c[1]), num(c[2]), num(c[3]));
        match (ours, reference(c[0], c[1], c[2], c[3])) {
            (Ok(q), Ok(r)) => {
                let got = [val(q.x), val(q.y), val(q.z), val(q.w)];
                for i in 0..4 {
                    assert!(got[i].to_bits() == r[i].to_bits() || (got[i].is_nan() && r[i].is_nan()));
                }
                if round % 3 != 0 {
                    assert!(approx_eq(norm_sq(&q), 1.0, 1e-9));
                }
            }
            (Err(a), Err(b)) => assert_eq!(a, b),
            _ => panic!("the outcomes differ for {:?}", c),
        }
    }
}
