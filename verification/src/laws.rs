//! What holds of every point, transform, quantity and quaternion.
//!
//! Each law is a theorem about the values that the library's functions
//! are specified to return. A value that is *finite* is neither infinite
//! nor a NaN; numbers are compared in units of `2^-1074`, in which every
//! finite value is an integer.

use vstd::prelude::*;
use vstd::arithmetic::power2::{pow2, lemma_pow2_adds, lemma_pow2_pos, lemma2_to64, lemma2_to64_rest};
use crate::binary64::accuracy::{
    distance, power, lemma_difference_accuracy, lemma_power, lemma_product_bounded,
    lemma_sum_accuracy,
};
use crate::binary64::encoding::{
    INFINITY, magnitude, scaled, lemma_increasing, lemma_ordered, lemma_pow2_le,
    lemma_zero_and_one,
};
use crate::binary64::exact::Exact;
use crate::binary64::rounding::{midpoint, nearest, lemma_nearest_total};
use crate::binary64::identities::{
    negligible, lemma_not_negligible, lemma_one_times, lemma_plus_zero, lemma_square,
    lemma_sum_of_nonnegatives, lemma_sum_with_zeros, lemma_zero_times,
};
use crate::binary64::product::product;
use crate::binary64::relative::PARTS;
use crate::frame::Frame;
use crate::point::Point3;
use crate::quaternion::{all_finite, norm_squared, normalizable, UnitQuat};
use crate::scalar::{close, Double};
use crate::transform::Transform;
use crate::unit_norm::{lemma_sum_of_squares, lemma_unit_norm};
use crate::units::{Quantity, Unit};

verus! {

/// Rounding gives the nearest magnitude: an exact result that lies between
/// the magnitude it is rounded to and any other lies in the half on the
/// side of the first. (`a + b` is twice the midpoint of `a` and `b`.)
pub proof fn law_rounding_gives_the_nearest(x: Exact, other: u64)
    requires
        x.valid(),
        other <= INFINITY,
    ensures
        nearest(x) <= INFINITY,
        other > nearest(x) ==> x.at_most(scaled(nearest(x)) + scaled(other), 1),
        other < nearest(x) ==> x.at_least(scaled(other) + scaled(nearest(x)), 1),
{
    let m = nearest(x);
    lemma_nearest_total(x);
    if other > m {
        let after = (m + 1) as u64;
        if after < other {
            lemma_increasing(after, other);
        }
        x.lemma_order(midpoint(m), scaled(m) + scaled(other), 1);
    } else if other < m {
        let before = (m - 1) as u64;
        if other < before {
            lemma_increasing(other, before);
        }
        x.lemma_order(scaled(other) + scaled(m), midpoint(before), 1);
    }
}

/// Sums and products do not depend on the order of their operands.
pub proof fn law_sums_and_products_commute(a: Double, b: Double)
    ensures
        a.plus(b) == b.plus(a),
        a.times(b) == b.times(a),
{
    let va = scaled(magnitude(a.bits));
    let vb = scaled(magnitude(b.bits));
    assert(va * vb == vb * va) by (nonlinear_arith);
}

/// The identity transform leaves every finite point where it is: each
/// coordinate of the image equals that of the point as a number, and is the
/// very same value unless it is a zero.
pub proof fn law_identity_preserves_points<A: Frame, B: Frame>(t: Transform<A, B>, p: Point3<A>)
    requires
        t.is_identity(),
        p.finite(),
    ensures
        t.image(p).x.same_number(p.x),
        t.image(p).y.same_number(p.y),
        t.image(p).z.same_number(p.z),
        !p.x.zero() ==> t.image(p).x == p.x,
        !p.y.zero() ==> t.image(p).y == p.y,
        !p.z.zero() ==> t.image(p).z == p.z,
{
    law_translation_adds_offset(
        t,
        p,
        Double::positive_zero(),
        Double::positive_zero(),
        Double::positive_zero(),
    );
    lemma_plus_zero(p.x.bits, 0);
    lemma_plus_zero(p.y.bits, 0);
    lemma_plus_zero(p.z.bits, 0);
}

/// The last row of the matrix plays no part: transforms that agree in their
/// first three rows take every point to the same image.
pub proof fn law_last_row_plays_no_part<A: Frame, B: Frame>(
    t: Transform<A, B>,
    u: Transform<A, B>,
    p: Point3<A>,
)
    requires
        forall|i: int, j: int| 0 <= i < 3 && 0 <= j < 4 ==> t.entry(i, j) == u.entry(i, j),
    ensures
        t.image(p) == u.image(p),
{
}

/// Where nothing overflows the image is finite: a transform whose first
/// three rows hold finite entries of absolute value at most `2^500` takes a
/// point whose coordinates are finite and of absolute value at most
/// `2^500` to a point whose coordinates are finite.
pub proof fn law_moderate_images_are_finite<A: Frame, B: Frame>(t: Transform<A, B>, p: Point3<A>)
    requires
        forall|i: int, j: int| 0 <= i < 3 && 0 <= j < 4 ==> t.entry(i, j).within(pow2(500)),
        p.x.within(pow2(500)) && p.y.within(pow2(500)) && p.z.within(pow2(500)),
    ensures
        t.image(p).finite(),
{
    lemma_row_is_finite(t.entry(0, 0), t.entry(0, 1), t.entry(0, 2), t.entry(0, 3), p.x, p.y, p.z);
    lemma_row_is_finite(t.entry(1, 0), t.entry(1, 1), t.entry(1, 2), t.entry(1, 3), p.x, p.y, p.z);
    lemma_row_is_finite(t.entry(2, 0), t.entry(2, 1), t.entry(2, 2), t.entry(2, 3), p.x, p.y, p.z);
}

/// One row of a matrix times a point, where nothing overflows.
proof fn lemma_row_is_finite(
    a: Double,
    b: Double,
    c: Double,
    d: Double,
    x: Double,
    y: Double,
    z: Double,
)
    requires
        a.within(pow2(500)) && b.within(pow2(500)) && c.within(pow2(500)) && d.within(pow2(500)),
        x.within(pow2(500)) && y.within(pow2(500)) && z.within(pow2(500)),
    ensures
        a.times(x).plus(b.times(y)).plus(c.times(z)).plus(d).finite(),
{
    lemma_pow2_adds(500, 1074);
    lemma_product_bounded(a.bits, x.bits, 1574, 1574);
    lemma_product_bounded(b.bits, y.bits, 1574, 1574);
    lemma_product_bounded(c.bits, z.bits, 1574, 1574);
    lemma_power(2074);
    lemma_power(2075);
    lemma_power(2076);
    lemma_power(2077);
    lemma_pow2_adds(1, 2074);
    lemma_pow2_adds(1, 2075);
    lemma_pow2_adds(1, 2076);
    lemma_pow2_le(1574, 2076);
    lemma2_to64();
    let ax = a.times(x);
    let by = b.times(y);
    let cz = c.times(z);
    lemma_ordered(magnitude(ax.bits), power(2074));
    lemma_ordered(magnitude(by.bits), power(2074));
    lemma_ordered(magnitude(cz.bits), power(2074));
    lemma_sum_accuracy(ax.bits, by.bits, power(2075));
    let s1 = ax.plus(by);
    lemma_ordered(magnitude(s1.bits), power(2075));
    lemma_sum_accuracy(s1.bits, cz.bits, power(2076));
    let s2 = s1.plus(cz);
    lemma_ordered(magnitude(s2.bits), power(2076));
    lemma_sum_accuracy(s2.bits, d.bits, power(2077));
}

/// A translation adds its offset: each coordinate of the image of a finite
/// point, under the translation by a finite offset, equals as a number the
/// rounded sum of the point's coordinate and the offset.
pub proof fn law_translation_adds_offset<A: Frame, B: Frame>(
    t: Transform<A, B>,
    p: Point3<A>,
    tx: Double,
    ty: Double,
    tz: Double,
)
    requires
        t.translates_by(tx, ty, tz),
        p.finite(),
        tx.finite() && ty.finite() && tz.finite(),
    ensures
        t.image(p).x.same_number(p.x.plus(tx)),
        t.image(p).y.same_number(p.y.plus(ty)),
        t.image(p).z.same_number(p.z.plus(tz)),
{
    lemma_zero_and_one();
    assert(t.entry(0, 0) == Double::one() && t.entry(0, 1).bits == 0 && t.entry(0, 2).bits == 0
        && t.entry(0, 3) == tx);
    assert(t.entry(1, 0).bits == 0 && t.entry(1, 1) == Double::one() && t.entry(1, 2).bits == 0
        && t.entry(1, 3) == ty);
    assert(t.entry(2, 0).bits == 0 && t.entry(2, 1).bits == 0 && t.entry(2, 2) == Double::one()
        && t.entry(2, 3) == tz);
    lemma_one_times(p.x.bits);
    lemma_one_times(p.y.bits);
    lemma_one_times(p.z.bits);
    lemma_zero_times(p.x.bits);
    lemma_zero_times(p.y.bits);
    lemma_zero_times(p.z.bits);
    lemma_sum_with_zeros(p.x.bits, product(0, p.y.bits), product(0, p.z.bits), tx.bits);
    lemma_sum_with_zeros(p.y.bits, product(0, p.x.bits), product(0, p.z.bits), ty.bits);
    lemma_sum_with_zeros(p.z.bits, product(0, p.x.bits), product(0, p.y.bits), tz.bits);
}

/// A translation adds its offset, to within `10^-9`: where a coordinate of
/// a finite point and the offset along it are of absolute value at most a
/// million, the coordinate of the image lies within `10^-9` of their exact
/// sum.
pub proof fn law_translation_is_accurate<A: Frame, B: Frame>(
    t: Transform<A, B>,
    p: Point3<A>,
    tx: Double,
    ty: Double,
    tz: Double,
)
    requires
        t.translates_by(tx, ty, tz),
        p.finite(),
        tx.finite() && ty.finite() && tz.finite(),
    ensures
        p.x.within(1_000_000) && tx.within(1_000_000) ==> close(
            t.image(p).x.units(),
            p.x.units() + tx.units(),
        ),
        p.y.within(1_000_000) && ty.within(1_000_000) ==> close(
            t.image(p).y.units(),
            p.y.units() + ty.units(),
        ),
        p.z.within(1_000_000) && tz.within(1_000_000) ==> close(
            t.image(p).z.units(),
            p.z.units() + tz.units(),
        ),
{
    law_translation_adds_offset(t, p, tx, ty, tz);
    lemma_same_number(t.image(p).x, p.x.plus(tx));
    lemma_same_number(t.image(p).y, p.y.plus(ty));
    lemma_same_number(t.image(p).z, p.z.plus(tz));
    if p.x.within(1_000_000) && tx.within(1_000_000) {
        lemma_sum_of_millions(p.x, tx);
    }
    if p.y.within(1_000_000) && ty.within(1_000_000) {
        lemma_sum_of_millions(p.y, ty);
    }
    if p.z.within(1_000_000) && tz.within(1_000_000) {
        lemma_sum_of_millions(p.z, tz);
    }
    lemma_billionth();
}

/// Adding a quantity and taking it away again gives back the first, to
/// within `10^-9`, where both are of absolute value at most a million.
pub proof fn law_add_then_subtract<U: Unit>(a: Quantity<U>, b: Quantity<U>)
    requires
        a.value.within(1_000_000),
        b.value.within(1_000_000),
    ensures
        close(a.value.plus(b.value).minus(b.value).units(), a.value.units()),
{
    let s = a.value.plus(b.value);
    lemma_sum_of_millions(a.value, b.value);
    lemma2_to64();
    lemma_pow2_adds(21, 1074);
    lemma_pow2_adds(1, 1095);
    lemma_pow2_adds(1, 1043);
    lemma_pow2_adds(1, 1042);
    let unit = pow2(1074);
    assert(1_000_000 * unit <= pow2(21) * unit) by (nonlinear_arith)
        requires
            pow2(21) == 0x20_0000,
            unit >= 0,
    ;
    lemma_power(1096);
    lemma_difference_accuracy(s.bits, b.value.bits, power(1096));
    lemma_billionth();
}

/// A quantity of zero is neutral for addition, on the left and on the
/// right: the sum equals the other operand as a number, and is the very
/// same value unless that is a zero.
pub proof fn law_zero_is_neutral<U: Unit>(a: Quantity<U>, zero: Quantity<U>)
    requires
        a.value.finite(),
        zero.value.zero(),
    ensures
        a.value.plus(zero.value).same_number(a.value),
        zero.value.plus(a.value).same_number(a.value),
        !a.value.zero() ==> a.value.plus(zero.value) == a.value && zero.value.plus(a.value)
            == a.value,
{
    lemma_plus_zero(a.value.bits, zero.value.bits);
}

/// Checked construction of a unit quaternion from finite components fails
/// exactly if every component is negligible: the sum of the squares is
/// zero exactly if each square is rounded to zero. The sum is never
/// negative and never a NaN.
pub proof fn law_zero_norm_means_negligible_components(
    x: Double,
    y: Double,
    z: Double,
    w: Double,
)
    requires
        all_finite(x, y, z, w),
    ensures
        norm_squared(x, y, z, w).zero() <==> negligible(x.bits) && negligible(y.bits)
            && negligible(z.bits) && negligible(w.bits),
        !norm_squared(x, y, z, w).nan(),
        norm_squared(x, y, z, w).units() >= 0,
{
    lemma_square(x.bits);
    lemma_square(y.bits);
    lemma_square(z.bits);
    lemma_square(w.bits);
    lemma_sum_of_nonnegatives(x.times(x).bits, y.times(y).bits);
    lemma_sum_of_nonnegatives(x.times(x).plus(y.times(y)).bits, z.times(z).bits);
    lemma_sum_of_nonnegatives(
        x.times(x).plus(y.times(y)).plus(z.times(z)).bits,
        w.times(w).bits,
    );
}

/// Four zeros, of whatever signs, are finite and have a sum of squares that
/// is zero: checked construction reports them as of zero norm.
pub proof fn law_zero_components_have_zero_norm(x: Double, y: Double, z: Double, w: Double)
    requires
        x.zero() && y.zero() && z.zero() && w.zero(),
    ensures
        all_finite(x, y, z, w),
        norm_squared(x, y, z, w).zero(),
{
    lemma_zero_and_one();
    lemma_pow2_pos(1074);
    law_zero_norm_means_negligible_components(x, y, z, w);
}

/// Finite components of which one is of absolute value at least `2^-537`
/// have a sum of squares that is not zero: checked construction succeeds.
pub proof fn law_sizable_components_have_a_norm(x: Double, y: Double, z: Double, w: Double)
    requires
        all_finite(x, y, z, w),
        x.size() >= pow2(537) || y.size() >= pow2(537) || z.size() >= pow2(537) || w.size()
            >= pow2(537),
    ensures
        !norm_squared(x, y, z, w).zero(),
{
    if x.size() >= pow2(537) {
        lemma_not_negligible(x.bits);
    } else if y.size() >= pow2(537) {
        lemma_not_negligible(y.bits);
    } else if z.size() >= pow2(537) {
        lemma_not_negligible(z.bits);
    } else {
        lemma_not_negligible(w.bits);
    }
    law_zero_norm_means_negligible_components(x, y, z, w);
}

/// Checked construction gives a quaternion of norm one, to within `10^-9`
/// in the square: for finite components of absolute value at most `2^500`
/// of which one is of absolute value at least `2^-500`, construction
/// succeeds, and the sum of the squares of the resulting components lies
/// within `10^-9` of one.
pub proof fn law_checked_quaternion_is_unit<F: Frame>(x: Double, y: Double, z: Double, w: Double)
    requires
        normalizable(x, y, z, w),
    ensures
        all_finite(x, y, z, w),
        !norm_squared(x, y, z, w).zero(),
        UnitQuat::<F>::normalized(x, y, z, w).unit(),
{
    lemma_pow2_adds(500, 1074);
    lemma_pow2_adds(574, 574);
    let big = pow2(574) as int;
    let a1 = x.size();
    let a2 = y.size();
    let a3 = z.size();
    let a4 = w.size();
    assert(0 <= a1 * a1 && 0 <= a2 * a2 && 0 <= a3 * a3 && 0 <= a4 * a4) by (nonlinear_arith);
    assert(forall|a: int| a >= big ==> #[trigger] (a * a) >= big * big) by (nonlinear_arith)
        requires
            big >= 0,
    ;
    assert(a1 * a1 >= big * big || a2 * a2 >= big * big || a3 * a3 >= big * big || a4 * a4 >= big
        * big);
    lemma_unit_norm(x.bits, y.bits, z.bits, w.bits);
    lemma_sum_of_squares(x.bits, y.bits, z.bits, w.bits);
    let q = UnitQuat::<F>::normalized(x, y, z, w);
    let one = pow2(1074) as int;
    lemma_units_squared(q.x);
    lemma_units_squared(q.y);
    lemma_units_squared(q.z);
    lemma_units_squared(q.w);
    let e = distance(q.squared_norm(), one * one);
    assert(PARTS * e == 0x100_0000_0000 * e);
    assert(0 <= one * one) by (nonlinear_arith);
}

/// Numbers that are equal have one value.
proof fn lemma_same_number(a: Double, b: Double)
    requires
        a.same_number(b),
    ensures
        a.units() == b.units(),
{
    lemma_zero_and_one();
}

/// The square of a number is the square of its absolute value.
proof fn lemma_units_squared(c: Double)
    ensures
        c.units() * c.units() == c.size() * c.size(),
{
    let v = c.size();
    assert((-v) * (-v) == v * v) by (nonlinear_arith);
}

/// The sum of two numbers of absolute value at most a million is of
/// absolute value at most `2^21`, and lies within `2^-32` of their exact
/// sum.
proof fn lemma_sum_of_millions(a: Double, b: Double)
    requires
        a.within(1_000_000),
        b.within(1_000_000),
    ensures
        a.plus(b).finite(),
        distance(0, a.plus(b).units()) <= pow2(1095),
        distance(a.plus(b).units(), a.units() + b.units()) <= pow2(1042),
{
    lemma2_to64();
    lemma2_to64_rest();
    lemma_pow2_adds(21, 1074);
    lemma_pow2_adds(1, 1042);
    let unit = pow2(1074);
    assert(2_000_000 * unit <= pow2(21) * unit) by (nonlinear_arith)
        requires
            pow2(21) == 0x20_0000,
            unit >= 0,
    ;
    assert(1_000_000 * unit + 1_000_000 * unit == 2_000_000 * unit) by (nonlinear_arith);
    lemma_power(1095);
    lemma_sum_accuracy(a.bits, b.bits, power(1095));
    lemma_ordered(magnitude(a.plus(b).bits), power(1095));
}

/// `10^-9` is more than `2^-30`.
proof fn lemma_billionth()
    ensures
        1_000_000_000 * (4 * pow2(1042)) <= pow2(1074),
{
    lemma2_to64();
    lemma_pow2_adds(32, 1042);
    let p = pow2(1042);
    assert(1_000_000_000 * (4 * p) <= pow2(32) * p) by (nonlinear_arith)
        requires
            pow2(32) == 0x1_0000_0000,
            p >= 0,
    ;
}

} // verus!
