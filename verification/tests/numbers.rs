//! The numbers of the library: classification, equality and exact values.

use spatial_typestate::binary64::encoding::{decode, join, split, INFINITY, NAN, ONE, SIGN};
use spatial_typestate::{Double, Frame, Transform};

#[derive(Debug, Clone, Copy, PartialEq, Eq)]
pub struct World;

impl Frame for World {}

fn num(v: f64) -> Double {
    Double::from_bits(v.to_bits())
}

fn val(d: Double) -> f64 {
    f64::from_bits(d.to_bits())
}

#[test]
fn the_constants_are_the_encodings_of_the_machine() {
    assert_eq!(ONE, 1.0f64.to_bits());
    assert_eq!(INFINITY, f64::INFINITY.to_bits());
    assert_eq!(SIGN, (-0.0f64).to_bits());
    assert!(f64::from_bits(NAN).is_nan());
    assert_eq!(Double::new_one().to_bits(), 1.0f64.to_bits());
    assert_eq!(Double::new_zero().to_bits(), 0.0f64.to_bits());
    assert_eq!(Double::from_bits(0x4009_21fb_5444_2d18).to_bits(), core::f64::consts::PI.to_bits());
}

#[test]
fn words_are_classified_as_the_machine_classifies_them() {
    let mut s: u64 = 0x6a09_e667_f3bc_c908;
    let mut words = vec![0, SIGN, 1, ONE, INFINITY, INFINITY | SIGN, NAN, NAN | SIGN, INFINITY + 1, INFINITY - 1, u64::MAX];
    for _ in 0..10_000 {
        s ^= s << 13;
        s ^= s >> 7;
        s ^= s << 17;
        words.push(s);
        words.push(s | INFINITY);
    }
    for w in words {
        let (d, f) = (Double::from_bits(w), f64::from_bits(w));
        assert_eq!(d.is_nan(), f.is_nan());
        assert_eq!(d.is_finite(), f.is_finite());
        assert_eq!(d.is_zero(), f == 0.0);
        assert_eq!(d == d, f == f);
        assert_eq!(d == num(0.0), f == 0.0);
        assert_eq!(d == num(1.0), f == 1.0);
    }
}

#[test]
fn a_word_comes_apart_and_goes_together_again() {
    for w in [0u64, 1, ONE, ONE | SIGN, INFINITY - 1, SIGN | 0x000f_ffff_ffff_ffff, 0x0010_0000_0000_0000] {
        let (negative, magnitude) = split(w);
        assert_eq!(negative, f64::from_bits(w).is_sign_negative());
        assert_eq!(magnitude, f64::from_bits(w).abs().to_bits());
        assert_eq!(join(negative, magnitude), w);
        let (significand, scale) = decode(magnitude);
        let back = significand as f64 * 2f64.powi(scale as i32 - 1074);
        assert_eq!(back, f64::from_bits(magnitude));
    }
    assert_eq!(decode(ONE), (1u64 << 52, 1022));
    assert_eq!(decode(1), (1, 0));
    assert_eq!(decode(0x0010_0000_0000_0000), (1u64 << 52, 0));
}

#[test]
fn results_are_rounded_to_nearest() {
    assert_eq!(num(0.1).add(num(0.2)).to_bits(), 0x3fd3_3333_3333_3334);
    assert_eq!(num(1.0).div(num(3.0)).to_bits(), 0x3fd5_5555_5555_5555);
    assert_eq!(num(2.0).div(num(3.0)).to_bits(), 0x3fe5_5555_5555_5555);
    assert_eq!(num(2.0).sqrt().to_bits(), 0x3ff6_a09e_667f_3bcd);
    assert_eq!(num(0.1).mul(num(0.1)).to_bits(), 0x3f84_7ae1_47ae_147c);
    assert_eq!(num(1.0).sub(num(1e-17)).to_bits(), 1.0f64.to_bits());
    assert_eq!(val(num(3.0).mul(num(4.0)).add(num(5.0))), 17.0);
    assert_eq!(val(num(81.0).sqrt()), 9.0);
}

#[test]
fn ties_go_to_the_even_neighbour() {
    // 2^53 + 1 lies halfway between 2^53 and 2^53 + 2.
    let big = num(9007199254740992.0);
    assert_eq!(val(big.add(num(1.0))), 9007199254740992.0);
    assert_eq!(val(big.add(num(3.0))), 9007199254740996.0);
    // Half of the smallest positive number is a tie between it and zero.
    let tiny = Double::from_bits(1);
    assert_eq!(tiny.mul(num(0.5)).to_bits(), 0);
    assert_eq!(Double::from_bits(3).mul(num(0.5)).to_bits(), 2);
    assert_eq!(tiny.div(num(2.0)).to_bits(), 0);
}

#[test]
fn results_too_large_are_infinite_and_results_too_small_are_zero() {
    assert_eq!(val(num(f64::MAX).add(num(f64::MAX))), f64::INFINITY);
    assert_eq!(val(num(f64::MAX).mul(num(2.0))), f64::INFINITY);
    assert_eq!(val(num(-f64::MAX).mul(num(2.0))), f64::NEG_INFINITY);
    assert_eq!(val(num(f64::MAX).div(num(0.5))), f64::INFINITY);
    assert_eq!(val(num(f64::MAX).add(num(1e291))), f64::MAX);
    assert_eq!(num(1e-200).mul(num(1e-200)).to_bits(), 0);
    assert_eq!(num(-1e-200).mul(num(1e-200)).to_bits(), SIGN);
    assert_eq!(num(1e-300).div(num(1e300)).to_bits(), 0);
}

#[test]
fn operations_without_a_number_give_the_one_nan() {
    let inf = num(f64::INFINITY);
    let results = [
        inf.sub(inf),
        inf.add(num(f64::NEG_INFINITY)),
        inf.mul(num(0.0)),
        num(0.0).div(num(0.0)),
        inf.div(inf),
        num(-1.0).sqrt(),
        num(f64::NEG_INFINITY).sqrt(),
        num(f64::NAN).add(num(1.0)),
        num(1.0).mul(Double::from_bits(NAN | 5)),
        Double::from_bits(u64::MAX).sqrt(),
    ];
    for r in results {
        assert_eq!(r.to_bits(), NAN);
        assert!(r.is_nan());
        assert!(r != r);
    }
}

#[test]
fn zeros_keep_the_signs_of_the_standard() {
    let (pz, nz) = (num(0.0), num(-0.0));
    assert_eq!(pz.add(nz).to_bits(), 0);
    assert_eq!(nz.add(nz).to_bits(), SIGN);
    assert_eq!(nz.sub(nz).to_bits(), 0);
    assert_eq!(nz.sub(pz).to_bits(), SIGN);
    assert_eq!(num(1.0).sub(num(1.0)).to_bits(), 0);
    assert_eq!(nz.mul(num(3.0)).to_bits(), SIGN);
    assert_eq!(nz.mul(num(-3.0)).to_bits(), 0);
    assert_eq!(nz.sqrt().to_bits(), SIGN);
    assert_eq!(num(1.0).div(nz).to_bits(), INFINITY | SIGN);
    assert_eq!(nz.div(num(f64::INFINITY)).to_bits(), SIGN);
    assert!(pz == nz);
}

#[test]
fn one_and_zero_are_neutral() {
    let mut s: u64 = 0xbb67_ae85_84ca_a73b;
    for _ in 0..20_000 {
        s ^= s << 13;
        s ^= s >> 7;
        s ^= s << 17;
        let x = Double::from_bits(s);
        if !x.is_finite() {
            continue;
        }
        assert_eq!(Double::new_one().mul(x).to_bits(), s);
        assert_eq!(x.mul(Double::new_one()).to_bits(), s);
        assert_eq!(x.div(Double::new_one()).to_bits(), s);
        assert_eq!(x.add(Double::new_zero()).to_bits(), s);
        assert_eq!(Double::new_zero().add(x).to_bits(), s);
        assert_eq!(x.sub(Double::new_zero()).to_bits(), s);
        assert!(Double::new_zero().mul(x).is_zero());
        assert_eq!(x.add(num(1.5)).to_bits(), num(1.5).add(x).to_bits());
        assert_eq!(x.mul(num(1.5)).to_bits(), num(1.5).mul(x).to_bits());
    }
}

#[test]
fn transforms_are_equal_where_their_entries_are_equal_numbers() {
    let a: Transform<World, World> = Transform::from_translation(num(1.0), num(2.0), num(3.0));
    let b: Transform<World, World> = Transform::from_translation(num(1.0), num(2.0), num(3.0));
    let c: Transform<World, World> = Transform::from_translation(num(1.0), num(2.0), num(3.5));
    assert!(a == b);
    assert!(a != c);
    assert!(a == a.clone());
    let id: Transform<World, World> = Transform::identity();
    let zero: Transform<World, World> = Transform::from_translation(num(-0.0), num(0.0), num(-0.0));
    assert!(id == zero);
    let nan: Transform<World, World> = Transform::from_translation(num(f64::NAN), num(0.0), num(0.0));
    assert!(nan != nan);
    let mut m = id.matrix;
    m[3][0] = num(7.0);
    let low: Transform<World, World> = Transform::from_matrix(m);
    assert!(id != low);
}
