//! Transforms applied to points.

use spatial_typestate::{Double, Frame, Point3, Transform};

#[derive(Debug, Clone, Copy, PartialEq, Eq)]
pub struct World;

impl Frame for World {}

#[derive(Debug, Clone, Copy, PartialEq, Eq)]
pub struct Body;

impl Frame for Body {}

fn num(v: f64) -> Double {
    Double::from_bits(v.to_bits())
}

fn val(d: Double) -> f64 {
    f64::from_bits(d.to_bits())
}

fn approx_eq(a: f64, b: f64, eps: f64) -> bool {
    (a - b).abs() <= eps
}

fn matrix(m: [[f64; 4]; 4]) -> [[Double; 4]; 4] {
    let mut out = [[num(0.0); 4]; 4];
    for i in 0..4 {
        for j in 0..4 {
            out[i][j] = num(m[i][j]);
        }
    }
    out
}

struct Numbers(u64);

impl Numbers {
    fn word(&mut self) -> u64 {
        self.0 ^= self.0 << 13;
        self.0 ^= self.0 >> 7;
        self.0 ^= self.0 << 17;
        self.0
    }

    fn within(&mut self, bound: f64) -> f64 {
        ((self.word() >> 11) as f64 / (1u64 << 53) as f64 - 0.5) * 2.0 * bound
    }
}

#[test]
fn identity_is_left_and_right_neutral_for_points() {
    let p: Point3<World> = Point3::new(num(3.0), num(-1.0), num(2.5));

    let id: Transform<World, World> = Transform::identity();
    let result = id.apply_point(p);

    assert!(approx_eq(val(result.x), val(p.x), 1e-12));
    assert!(approx_eq(val(result.y), val(p.y), 1e-12));
    assert!(approx_eq(val(result.z), val(p.z), 1e-12));
}

#[test]
fn simple_translation_on_point() {
    let t_translate: Transform<World, World> = Transform::from_translation(num(10.0), num(0.0), num(0.0));

    let p: Point3<World> = Point3::new(num(1.0), num(2.0), num(3.0));
    let q = t_translate.apply_point(p);

    assert!(approx_eq(val(q.x), 11.0, 1e-12));
    assert!(approx_eq(val(q.y), 2.0, 1e-12));
    assert!(approx_eq(val(q.z), 3.0, 1e-12));
}

#[test]
fn the_named_point_under_identity_and_translation() {
    let p: Point3<Body> = Point3::new(num(1.0), num(0.0), num(-2.0));
    let id: Transform<Body, World> = Transform::identity();
    let q = id.apply_point(p);
    assert_eq!((val(q.x), val(q.y), val(q.z)), (1.0, 0.0, -2.0));
    let t: Transform<Body, World> = Transform::from_translation(num(10.0), num(0.0), num(0.0));
    let q = t.apply_point(p);
    assert_eq!((val(q.x), val(q.y), val(q.z)), (11.0, 0.0, -2.0));
}

#[test]
fn identity_matrix_has_ones_on_the_diagonal() {
    let id: Transform<World, Body> = Transform::identity();
    for i in 0..4 {
        for j in 0..4 {
            assert_eq!(val(id.matrix[i][j]), if i == j { 1.0 } else { 0.0 });
            assert_eq!(id.matrix[i][j].to_bits(), if i == j { 1.0f64.to_bits() } else { 0 });
        }
    }
}

#[test]
fn translation_matrix_holds_the_offset_in_its_last_column() {
    let t: Transform<World, Body> = Transform::from_translation(num(7.0), num(-8.0), num(9.5));
    let want = [[1.0, 0.0, 0.0, 7.0], [0.0, 1.0, 0.0, -8.0], [0.0, 0.0, 1.0, 9.5], [0.0, 0.0, 0.0, 1.0]];
    for i in 0..4 {
        for j in 0..4 {
            assert_eq!(val(t.matrix[i][j]), want[i][j]);
        }
    }
}

#[test]
fn a_raw_matrix_is_kept_as_given() {
    let raw = [[1.0, 2.0, 3.0, 4.0], [5.0, 6.0, 7.0, 8.0], [9.0, 10.0, 11.0, 12.0], [f64::INFINITY, -0.0, 15.0, 16.0]];
    let t: Transform<World, Body> = Transform::from_matrix(matrix(raw));
    for i in 0..4 {
        for j in 0..4 {
            assert_eq!(t.matrix[i][j].to_bits(), raw[i][j].to_bits());
        }
    }
}

#[test]
fn a_general_matrix_is_applied_row_by_row() {
    let raw = [[0.0, -1.0, 0.0, 1.0], [1.0, 0.0, 0.0, 2.0], [0.0, 0.0, 2.0, 3.0], [0.0, 0.0, 0.0, 1.0]];
    let t: Transform<World, Body> = Transform::from_matrix(matrix(raw));
    let q = t.apply_point(Point3::new(num(1.0), num(2.0), num(3.0)));
    assert_eq!((val(q.x), val(q.y), val(q.z)), (-1.0, 3.0, 9.0));
}

#[test]
fn the_last_row_is_never_read() {
    let mut raw = [[0.5, 0.25, 0.0, 1.0], [1.0, 0.0, 0.0, 2.0], [0.0, 0.0, 2.0, 3.0], [0.0, 0.0, 0.0, 1.0]];
    let a: Transform<World, Body> = Transform::from_matrix(matrix(raw));
    raw[3] = [f64::NAN, f64::INFINITY, -7.0, 0.0];
    let b: Transform<World, Body> = Transform::from_matrix(matrix(raw));
    let p = Point3::new(num(1.0), num(2.0), num(3.0));
    let (qa, qb) = (a.apply_point(p), b.apply_point(p));
    assert_eq!((val(qa.x), val(qa.y), val(qa.z)), (val(qb.x), val(qb.y), val(qb.z)));
    assert_eq!((val(qa.x), val(qa.y), val(qa.z)), (2.0, 3.0, 9.0));
}

#[test]
fn applying_does_not_change_the_transform() {
    let t: Transform<World, Body> = Transform::from_translation(num(1.0), num(2.0), num(3.0));
    let before = t;
    let _ = t.apply_point(Point3::new(num(4.0), num(5.0), num(6.0)));
    for i in 0..4 {
        for j in 0..4 {
            assert_eq!(t.matrix[i][j].to_bits(), before.matrix[i][j].to_bits());
        }
    }
}

#[test]
fn values_that_are_not_finite_propagate() {
    let t: Transform<World, Body> = Transform::from_translation(num(f64::INFINITY), num(0.0), num(0.0));
    let q = t.apply_point(Point3::new(num(1.0), num(2.0), num(f64::NAN)));
    assert!(val(q.x).is_nan());
    assert!(val(q.y).is_nan());
    assert!(val(q.z).is_nan());
    let q = t.apply_point(Point3::new(num(1.0), num(2.0), num(3.0)));
    assert_eq!(val(q.x), f64::INFINITY);
    let big: Transform<World, Body> = Transform::from_translation(num(f64::MAX), num(0.0), num(0.0));
    let q = big.apply_point(Point3::new(num(f64::MAX), num(2.0), num(3.0)));
    assert_eq!(val(q.x), f64::INFINITY);
}

#[test]
fn identity_preserves_random_world_points() {
    let mut n = Numbers(0x853c_49e6_748f_ea9b);
    let id: Transform<World, World> = Transform::identity();
    for _ in 0..20_000 {
        let (x, y, z) = (n.within(1e6), n.within(1e6), n.within(1e6));
        let q = id.apply_point(Point3::new(num(x), num(y), num(z)));
        assert_eq!((val(q.x), val(q.y), val(q.z)), (x, y, z));
    }
}

#[test]
fn identity_preserves_every_finite_encoding_but_negative_zero() {
    let mut n = Numbers(0xda3e_39cb_94b9_5bdb);
    let id: Transform<World, Body> = Transform::identity();
    for _ in 0..20_000 {
        let words = [n.word(), n.word(), n.word()];
        let c = words.map(f64::from_bits);
        if c.iter().any(|v| !v.is_finite()) {
            continue;
        }
        let q = id.apply_point(Point3::new(num(c[0]), num(c[1]), num(c[2])));
        assert_eq!([val(q.x), val(q.y), val(q.z)], c);
        for (got, want) in [q.x, q.y, q.z].iter().zip(words) {
            assert!(got.to_bits() == want || want == (-0.0f64).to_bits());
        }
    }
    let q = id.apply_point(Point3::new(num(-0.0), num(-0.0), num(-0.0)));
    assert_eq!(q.x.to_bits(), 0);
}

#[test]
fn translation_adds_offset_for_random_points() {
    let mut n = Numbers(0x1405_7b7e_f767_814f);
    for _ in 0..20_000 {
        let (x, y, z) = (n.within(1e6), n.within(1e6), n.within(1e6));
        let (tx, ty, tz) = (n.within(1e6), n.within(1e6), n.within(1e6));
        let t: Transform<World, World> = Transform::from_translation(num(tx), num(ty), num(tz));
        let q = t.apply_point(Point3::new(num(x), num(y), num(z)));
        assert_eq!((val(q.x), val(q.y), val(q.z)), (x + tx, y + ty, z + tz));
        assert!(approx_eq(val(q.x), x + tx, 1e-9));
        assert!(approx_eq(val(q.y), y + ty, 1e-9));
        assert!(approx_eq(val(q.z), z + tz, 1e-9));
    }
}

#[test]
fn a_general_matrix_agrees_with_the_machine() {
    let mut n = Numbers(0x9e37_79b9_7f4a_7c15);
    for _ in 0..20_000 {
        let mut raw = [[0.0f64; 4]; 4];
        for row in raw.iter_mut() {
            for v in row.iter_mut() {
                *v = n.within(1e3);
            }
        }
        let (x, y, z) = (n.within(1e3), n.within(1e3), n.within(1e3));
        let t: Transform<World, Body> = Transform::from_matrix(matrix(raw));
        let q = t.apply_point(Point3::new(num(x), num(y), num(z)));
        let got = [val(q.x), val(q.y), val(q.z)];
        for i in 0..3 {
            let want = raw[i][0] * x + raw[i][1] * y + raw[i][2] * z + raw[i][3];
            assert_eq!(got[i], want);
        }
    }
}
