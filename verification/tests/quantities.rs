//! Quantities of one unit.

use spatial_typestate::{AngleUnit, Degrees, Double, LengthUnit, Meters, Quantity, Radians, Unit};

fn num(v: f64) -> Double {
    Double::from_bits(v.to_bits())
}

fn val(d: Double) -> f64 {
    f64::from_bits(d.to_bits())
}

fn approx_eq(a: f64, b: f64, eps: f64) -> bool {
    (a - b).abs() <= eps
}

struct Numbers(u64);

impl Numbers {
    fn within(&mut self, bound: f64) -> f64 {
        self.0 ^= self.0 << 13;
        self.0 ^= self.0 >> 7;
        self.0 ^= self.0 << 17;
        ((self.0 >> 11) as f64 / (1u64 << 53) as f64 - 0.5) * 2.0 * bound
    }
}

fn is_length<U: LengthUnit>(_: Quantity<U>) -> bool {
    true
}

fn is_angle<U: AngleUnit>(_: Quantity<U>) -> bool {
    true
}

fn is_unit<U: Unit>(_: U) -> bool {
    true
}

/// A unit that a user of the library declares.
#[derive(Debug, Clone, Copy, PartialEq, Eq)]
struct Feet;

impl Unit for Feet {}

impl LengthUnit for Feet {}

#[test]
fn the_units_are_lengths_and_angles() {
    assert!(is_length(Quantity::<Meters>::new(num(1.0))));
    assert!(is_angle(Quantity::<Radians>::new(num(1.0))));
    assert!(is_angle(Quantity::<Degrees>::new(num(90.0))));
    assert!(is_length(Quantity::<Feet>::new(num(3.0))));
    assert!(is_unit(Meters) && is_unit(Radians) && is_unit(Degrees));
    assert_eq!(Meters, Meters);
    assert_eq!(core::mem::size_of::<Quantity<Meters>>(), core::mem::size_of::<u64>());
}

#[test]
fn a_quantity_gives_back_its_number() {
    let q: Quantity<Degrees> = Quantity::new(num(42.5));
    assert_eq!(val(q.get()), 42.5);
    assert_eq!(val(q.value), 42.5);
}

#[test]
fn quantity_add_then_subtract_is_identity_for_meters() {
    let mut n = Numbers(0x0123_4567_89ab_cdef);
    for _ in 0..50_000 {
        let (a, b) = (n.within(1e6), n.within(1e6));
        let qa: Quantity<Meters> = Quantity::new(num(a));
        let qb: Quantity<Meters> = Quantity::new(num(b));
        let sum = qa.add(qb);
        let back = sum.sub(qb);
        assert_eq!(val(sum.get()), a + b);
        assert_eq!(val(back.get()), (a + b) - b);
        assert!(approx_eq(val(back.get()), val(qa.get()), 1e-9));
    }
}

#[test]
fn quantity_zero_is_additive_identity_for_radians() {
    let mut n = Numbers(0xfedc_ba98_7654_3210);
    let zero: Quantity<Radians> = Quantity::new(num(0.0));
    for _ in 0..50_000 {
        let x = n.within(1e6);
        let qx: Quantity<Radians> = Quantity::new(num(x));
        assert_eq!(val(qx.add(zero).get()), x);
        assert_eq!(val(zero.add(qx).get()), x);
        assert!(approx_eq(val(qx.add(zero).get()), x, 1e-9));
        assert!(approx_eq(val(zero.add(qx).get()), x, 1e-9));
    }
}

#[test]
fn sums_and_differences_are_rounded_to_nearest() {
    let a: Quantity<Meters> = Quantity::new(num(0.1));
    let b: Quantity<Meters> = Quantity::new(num(0.2));
    assert_eq!(a.add(b).get().to_bits(), 0x3fd3_3333_3333_3334);
    assert_eq!(val(a.add(b).get()), 0.30000000000000004);
    assert_eq!(val(b.sub(a).get()), 0.1);
    assert_eq!(val(a.sub(a).get()).to_bits(), 0);
    let big: Quantity<Meters> = Quantity::new(num(1e30));
    let one: Quantity<Meters> = Quantity::new(num(1.0));
    assert_eq!(val(one.add(big).sub(big).get()), 0.0);
}
