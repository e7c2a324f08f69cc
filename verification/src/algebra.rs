//! The scalar's operations are those of the rational numbers: a sum holds the
//! value of the sum and a product that of the product, and what follows from
//! that for durations.

use crate::duration::{in_seconds_of, ratio_of, Duration, TimeUnit};
use crate::numtheory::lemma_gcd_one;
use crate::rational::{
    lemma_lowest_terms, lemma_lowest_terms_opposite, lemma_normal_is_lowest,
    lemma_normal_unique, lemma_sum_form, lemma_whole_normal, magnitude, negation, product, sum,
    Rational,
};
use vstd::prelude::*;

verus! {

/// Four factors can be paired anew.
proof fn lemma_pairs(a: int, b: int, c: int, d: int)
    ensures
        (a * b) * (c * d) == (a * c) * (b * d),
        (a * b) * (c * d) == (a * d) * (b * c),
{
    assert((a * b) * (c * d) == (a * c) * (b * d)) by (nonlinear_arith);
    assert((a * b) * (c * d) == (a * d) * (b * c)) by (nonlinear_arith);
}

/// A factor spreads over a sum.
proof fn lemma_spread(p: int, q: int, r: int)
    ensures
        (p + q) * r == p * r + q * r,
{
    assert((p + q) * r == p * r + q * r) by (nonlinear_arith);
}

/// Standing for the same number passes along.
pub proof fn lemma_same_value_transitive(x: Rational, y: Rational, z: Rational)
    requires
        y.den > 0,
        x.same_value(y),
        y.same_value(z),
    ensures
        x.same_value(z),
{
    assert(x.num * z.den == z.num * x.den) by (nonlinear_arith)
        requires
            x.num * y.den == y.num * x.den,
            y.num * z.den == z.num * y.den,
            y.den > 0,
    ;
}

/// Sums of ratios that stand for the same numbers stand for the same number.
pub proof fn lemma_plus_congruent(x: Rational, x2: Rational, y: Rational, y2: Rational)
    requires
        x.same_value(x2),
        y.same_value(y2),
    ensures
        x.plus(y).same_value(x2.plus(y2)),
{
    lemma_spread(x.num * y.den, y.num * x.den, x2.den * y2.den);
    lemma_pairs(x.num, y.den, x2.den, y2.den);
    lemma_pairs(y.num, x.den, x2.den, y2.den);
    lemma_spread(x2.num * y2.den, y2.num * x2.den, x.den * y.den);
    lemma_pairs(x2.num, y2.den, x.den, y.den);
    lemma_pairs(y2.num, x2.den, x.den, y.den);
    let u = y.den * y2.den;
    let v = x.den * x2.den;
    assert((x.num * x2.den) * u == (x2.num * x.den) * (y2.den * y.den)) by (nonlinear_arith)
        requires
            x.num * x2.den == x2.num * x.den,
            u == y.den * y2.den,
    ;
    assert((y.num * y2.den) * v == (y2.num * y.den) * (x2.den * x.den)) by (nonlinear_arith)
        requires
            y.num * y2.den == y2.num * y.den,
            v == x.den * x2.den,
    ;
}

/// Products of ratios that stand for the same numbers stand for the same
/// number.
pub proof fn lemma_times_congruent(x: Rational, x2: Rational, y: Rational, y2: Rational)
    requires
        x.same_value(x2),
        y.same_value(y2),
    ensures
        x.times(y).same_value(x2.times(y2)),
{
    lemma_pairs(x.num, y.num, x2.den, y2.den);
    lemma_pairs(x2.num, y2.num, x.den, y.den);
    assert((x.num * x2.den) * (y.num * y2.den) == (x2.num * x.den) * (y2.num * y.den))
        by (nonlinear_arith)
        requires
            x.num * x2.den == x2.num * x.den,
            y.num * y2.den == y2.num * y.den,
    ;
}

/// A product spreads over a sum.
pub proof fn lemma_times_over_plus(x: Rational, y: Rational, k: Rational)
    ensures
        x.plus(y).times(k).same_value(x.times(k).plus(y.times(k))),
{
    let n = x.num * y.den + y.num * x.den;
    let m = (x.num * k.num) * (y.den * k.den) + (y.num * k.num) * (x.den * k.den);
    let d = x.den * y.den;
    lemma_pairs(x.num, k.num, y.den, k.den);
    lemma_pairs(y.num, k.num, x.den, k.den);
    lemma_spread(x.num * y.den, y.num * x.den, k.num * k.den);
    assert(m == n * (k.num * k.den));
    lemma_pairs(x.den, k.den, y.den, k.den);
    assert((x.den * k.den) * (y.den * k.den) == d * (k.den * k.den));
    assert((n * k.num) * (d * (k.den * k.den)) == (n * (k.num * k.den)) * (d * k.den))
        by (nonlinear_arith);
}

/// Where the sum of two scalars is a number, it is in lowest terms and
/// stands for the sum of the two.
pub proof fn lemma_sum_value(x: Rational, y: Rational)
    requires
        x.normal(),
        y.normal(),
        x.sum_fits(y),
    ensures
        sum(Some(x), Some(y)) matches Some(s) && s.normal() && s.fits() && s.same_value(
            x.plus(y),
        ),
{
    let e = x.plus(y);
    let f = x.sum_form(y);
    lemma_sum_form(x, y);
    lemma_lowest_terms(e.num, e.den);
    lemma_lowest_terms(f.num, f.den);
}

/// Where the product of two scalars is a number, it is in lowest terms and
/// stands for the product of the two.
pub proof fn lemma_product_value(x: Rational, y: Rational)
    requires
        x.normal(),
        y.normal(),
        product(Some(x), Some(y)).is_some(),
    ensures
        product(Some(x), Some(y)) matches Some(p) && p.normal() && p.fits() && p.same_value(
            x.times(y),
        ),
{
    let e = x.times(y);
    lemma_proper(x, y);
    lemma_lowest_terms(e.num, e.den);
}

/// The denominators of a sum and of a product of two ratios with positive
/// denominators are positive.
pub proof fn lemma_proper(x: Rational, y: Rational)
    requires
        x.den > 0,
        y.den > 0,
    ensures
        x.plus(y).den > 0,
        x.times(y).den > 0,
{
    assert(x.den * y.den > 0) by (nonlinear_arith)
        requires
            x.den > 0,
            y.den > 0,
    ;
}

/// The product of the opposite is the opposite of the product.
pub proof fn lemma_product_opposite(x: Rational, k: Rational)
    requires
        x.den > 0,
        k.den > 0,
    ensures
        product(Some(x.opposite()), Some(k)) == negation(product(Some(x), Some(k))),
{
    let e = x.times(k);
    lemma_proper(x, k);
    assert(x.opposite().times(k) == e.opposite()) by {
        assert((-x.num) * k.num == -(x.num * k.num)) by (nonlinear_arith);
    }
    lemma_lowest_terms_opposite(e.num, e.den);
}

/// The product of two whole numbers is the whole number that is their
/// product, where that fits in 128 bits, and no number where it does not.
pub proof fn lemma_whole_product(a: int, b: int)
    ensures
        product(Some(Rational::whole(a)), Some(Rational::whole(b))) == if magnitude(a * b)
            <= u128::MAX {
            Some(Rational::whole(a * b))
        } else {
            None
        },
{
    let e = Rational::whole(a).times(Rational::whole(b));
    assert(e == Rational::whole(a * b));
    lemma_whole_normal(a * b);
    lemma_normal_is_lowest(Rational::whole(a * b));
}

/// The sum of two whole numbers is the whole number that is their sum,
/// where the two and the sum fit in 128 bits, and no number where they do
/// not.
pub proof fn lemma_whole_sum(a: int, b: int)
    ensures
        sum(Some(Rational::whole(a)), Some(Rational::whole(b))) == if magnitude(a) <= u128::MAX
            && magnitude(b) <= u128::MAX && magnitude(a + b) <= u128::MAX {
            Some(Rational::whole(a + b))
        } else {
            None
        },
{
    let x = Rational::whole(a);
    let y = Rational::whole(b);
    lemma_gcd_one(1);
    let e = x.plus(y);
    assert(e == Rational::whole(a + b)) by {
        assert(a * 1 + b * 1 == a + b && 1 * 1 == 1) by (nonlinear_arith);
    }
    assert(x.sum_form(y) == Rational::whole(a + b)) by {
        assert(a * (1int / 1) + b * (1int / 1) == a + b && (1int / 1) * 1 == 1)
            by (nonlinear_arith);
    }
    assert(magnitude(a) * (1int / 1) == magnitude(a) && magnitude(b) * (1int / 1) == magnitude(b))
        by (nonlinear_arith);
    lemma_whole_normal(a + b);
    lemma_normal_is_lowest(Rational::whole(a + b));
}

/// Two durations are equal exactly when they hold the same seconds, and they
/// hold the same seconds as soon as their seconds stand for the same number:
/// no unit and no way of making a duration shows in it.
pub proof fn lemma_equality_is_of_value(a: Duration, b: Duration)
    requires
        a.wf(),
        b.wf(),
    ensures
        a == b <==> a@ == b@,
        a@ matches Some(x) && b@ matches Some(y) && x.same_value(y) ==> a == b,
{
    a.lemma_view();
    b.lemma_view();
    if let Some(x) = a@ {
        if let Some(y) = b@ {
            if x.same_value(y) {
                lemma_normal_unique(x, y);
            }
        }
    }
}

/// Converting a sum of three durations to a unit gives the sum of the three
/// converted, wherever both can be formed.
pub proof fn lemma_conversion_spreads_over_sum(a: Duration, b: Duration, c: Duration, unit: TimeUnit)
    requires
        a.wf(),
        b.wf(),
        c.wf(),
    ensures
        ({
            let f = Some(unit.per_second());
            let whole = product(sum(sum(a@, b@), c@), f);
            let parts = sum(sum(product(a@, f), product(b@, f)), product(c@, f));
            whole.is_some() && parts.is_some() ==> whole == parts
        }),
{
    let k = unit.per_second();
    let f = Some(k);
    let whole = product(sum(sum(a@, b@), c@), f);
    let parts = sum(sum(product(a@, f), product(b@, f)), product(c@, f));
    if whole.is_some() && parts.is_some() {
        a.lemma_view();
        b.lemma_view();
        c.lemma_view();
        unit.lemma_factors();
        let x = a@.unwrap();
        let y = b@.unwrap();
        let z = c@.unwrap();
        // the whole, from the inside out
        lemma_sum_value(x, y);
        let s1 = sum(a@, b@).unwrap();
        lemma_sum_value(s1, z);
        let s2 = sum(sum(a@, b@), c@).unwrap();
        lemma_product_value(s2, k);
        let l = whole.unwrap();
        // the parts, from the inside out
        lemma_product_value(x, k);
        lemma_product_value(y, k);
        lemma_product_value(z, k);
        let px = product(a@, f).unwrap();
        let py = product(b@, f).unwrap();
        let pz = product(c@, f).unwrap();
        lemma_sum_value(px, py);
        let r1 = sum(product(a@, f), product(b@, f)).unwrap();
        lemma_sum_value(r1, pz);
        let r = parts.unwrap();
        // the exact values in between
        let e1 = x.plus(y);
        let e2 = e1.plus(z);
        let e3 = e2.times(k);
        let m1 = x.times(k).plus(y.times(k));
        let m2 = m1.plus(z.times(k));
        lemma_proper(x, y);
        lemma_proper(e1, z);
        lemma_proper(e2, k);
        lemma_proper(s1, z);
        lemma_proper(s2, k);
        lemma_proper(x, k);
        lemma_proper(y, k);
        lemma_proper(z, k);
        lemma_proper(x.times(k), y.times(k));
        lemma_proper(m1, z.times(k));
        lemma_proper(px, py);
        lemma_proper(r1, pz);
        lemma_proper(e1, k);
        lemma_proper(e1.times(k), z.times(k));
        // l stands for e3
        lemma_plus_congruent(s1, e1, z, z);
        lemma_same_value_transitive(s2, s1.plus(z), e2);
        lemma_times_congruent(s2, e2, k, k);
        lemma_same_value_transitive(l, s2.times(k), e3);
        // e3 stands for m2
        lemma_times_over_plus(e1, z, k);
        lemma_times_over_plus(x, y, k);
        lemma_plus_congruent(e1.times(k), m1, z.times(k), z.times(k));
        lemma_same_value_transitive(e3, e1.times(k).plus(z.times(k)), m2);
        // r stands for m2
        lemma_plus_congruent(px, x.times(k), py, y.times(k));
        lemma_same_value_transitive(r1, px.plus(py), m1);
        lemma_plus_congruent(r1, m1, pz, z.times(k));
        lemma_same_value_transitive(r, r1.plus(pz), m2);
        // so l and r stand for the same number
        lemma_same_value_transitive(l, e3, m2);
        assert(m2.same_value(r));
        lemma_same_value_transitive(l, m2, r);
        lemma_normal_unique(l, r);
    }
}

/// A ratio of a unit is the same duration when numerator and denominator
/// both change their sign.
pub proof fn lemma_fraction_both_signs(num: i64, denom: i64, unit: TimeUnit)
    requires
        denom != 0,
    ensures
        in_seconds_of(Some(ratio_of(-(num as int), -(denom as int))), unit) == in_seconds_of(
            Some(ratio_of(num as int, denom as int)),
            unit,
        ),
{
    assert(ratio_of(-(num as int), -(denom as int)) == ratio_of(num as int, denom as int));
}

/// A ratio of a unit becomes the opposite duration when the denominator
/// changes its sign.
pub proof fn lemma_fraction_one_sign(num: i64, denom: i64, unit: TimeUnit)
    requires
        denom != 0,
    ensures
        in_seconds_of(Some(ratio_of(num as int, -(denom as int))), unit) == negation(
            in_seconds_of(Some(ratio_of(num as int, denom as int)), unit),
        ),
{
    let n = num as int;
    let d = denom as int;
    let m = magnitude(d) as int;
    let top = if d > 0 {
        n
    } else {
        -n
    };
    lemma_lowest_terms_opposite(top, m);
    lemma_lowest_terms(top, m);
    assert(ratio_of(n, -d) == ratio_of(n, d).opposite());
    unit.lemma_factors();
    lemma_product_opposite(ratio_of(n, d), unit.seconds_per());
}

} // verus!
