//! The integer arithmetic against the machine's floating point.

use spatial_typestate::binary64::product::multiply;
use spatial_typestate::binary64::quotient::divide;
use spatial_typestate::binary64::root::sqrt;
use spatial_typestate::binary64::sum::{add, subtract};

/// A small deterministic generator of 64-bit words.
struct Words(u64);

impl Words {
    fn next(&mut self) -> u64 {
        self.0 ^= self.0 << 13;
        self.0 ^= self.0 >> 7;
        self.0 ^= self.0 << 17;
        self.0
    }

    /// A word whose exponent field lies near that of `near`.
    fn next_near(&mut self, near: u64) -> u64 {
        let w = self.next();
        let e = (near >> 52) & 0x7ff;
        let shift = (w >> 52) % 140;
        let e2 = (e + shift).saturating_sub(70).min(0x7ff);
        (w & 0x800f_ffff_ffff_ffff) | (e2 << 52)
    }
}

fn edge_cases() -> Vec<u64> {
    let mut v = vec![
        0u64,
        1,
        2,
        3,
        0x000f_ffff_ffff_ffff,
        0x0010_0000_0000_0000,
        0x0010_0000_0000_0001,
        0x001f_ffff_ffff_ffff,
        0x0020_0000_0000_0000,
        0x3fe0_0000_0000_0000,
        0x3fef_ffff_ffff_ffff,
        0x3ff0_0000_0000_0000,
        0x3ff0_0000_0000_0001,
        0x3ff8_0000_0000_0000,
        0x4000_0000_0000_0000,
        0x4340_0000_0000_0000,
        0x7fe0_0000_0000_0000,
        0x7fef_ffff_ffff_ffff,
        0x7ff0_0000_0000_0000,
        0x7ff0_0000_0000_0001,
        0x7ff8_0000_0000_0000,
        0x1ff0_0000_0000_0000,
        0x2000_0000_0000_0000,
        0x5fe0_0000_0000_0000,
        0x1e60_0000_0000_0000,
        0x1e5f_ffff_ffff_ffff,
    ];
    let n = v.len();
    for i in 0..n {
        v.push(v[i] | 0x8000_0000_0000_0000);
    }
    v
}

fn same(ours: u64, theirs: f64) -> bool {
    if theirs.is_nan() {
        ours == 0x7ff8_0000_0000_0000
    } else {
        ours == theirs.to_bits()
    }
}

fn check_pair(a: u64, b: u64) {
    let (x, y) = (f64::from_bits(a), f64::from_bits(b));
    assert!(same(multiply(a, b), x * y), "{:#x} * {:#x}", a, b);
    assert!(same(add(a, b), x + y), "{:#x} + {:#x}", a, b);
    assert!(same(subtract(a, b), x - y), "{:#x} - {:#x}", a, b);
    assert!(same(divide(a, b), x / y), "{:#x} / {:#x}", a, b);
    assert!(same(sqrt(a), x.sqrt()), "sqrt {:#x}", a);
}

#[test]
fn edge_cases_agree_with_the_machine() {
    let v = edge_cases();
    for &a in &v {
        for &b in &v {
            check_pair(a, b);
        }
    }
}

#[test]
fn random_words_agree_with_the_machine() {
    let mut w = Words(0x9e37_79b9_7f4a_7c15);
    for _ in 0..200_000 {
        let a = w.next();
        let b = w.next();
        check_pair(a, b);
        let c = w.next_near(a);
        check_pair(a, c);
        check_pair(c, a);
    }
}

#[test]
fn neighbouring_words_agree_with_the_machine() {
    let mut w = Words(0x1234_5678_9abc_def1);
    for _ in 0..50_000 {
        let a = w.next();
        for d in 0..4u64 {
            check_pair(a, a.wrapping_add(d));
            check_pair(a, (a ^ 0x8000_0000_0000_0000).wrapping_add(d));
            check_pair(a, a.wrapping_add(d << 52));
            check_pair(a, (a ^ 0x8000_0000_0000_0000).wrapping_sub(d << 52));
        }
    }
}
