//! The mathematical model of the scalar: ratios of two integers, and what it
//! means for one to be in lowest terms.

use crate::numtheory::{
    gcd, lemma_coprime_divisor, lemma_coprime_product, lemma_divides_exact, lemma_gcd_divides,
    lemma_gcd_one, lemma_gcd_symmetric, lemma_gcd_zero, lemma_lowest_terms_unique,
    lemma_multiple_divides, lemma_quotients_coprime,
};
use vstd::prelude::*;

verus! {

/// A ratio `num / den` of two integers. It stands for a number when `den` is
/// positive.
pub struct Rational {
    pub num: int,
    pub den: int,
}

/// The distance of `n` from zero.
pub open spec fn magnitude(n: int) -> nat {
    if n >= 0 {
        n as nat
    } else {
        (-n) as nat
    }
}

/// `n` divided by a positive `g`, rounded toward zero.
pub open spec fn toward_zero(n: int, g: int) -> int {
    if n >= 0 {
        n / g
    } else {
        -((-n) / g)
    }
}

/// The ratio `n / d`, for a positive `d`, with the common divisors of the two
/// taken out.
pub open spec fn lowest_terms(n: int, d: int) -> Rational {
    let g = gcd(magnitude(n), d as nat) as int;
    Rational { num: toward_zero(n, g), den: d / g }
}

impl Rational {
    /// The whole number `n`.
    pub open spec fn whole(n: int) -> Rational {
        Rational { num: n, den: 1 }
    }

    /// In lowest terms: the denominator is positive and shares no divisor
    /// with the numerator but one. Zero is `0 / 1`.
    pub open spec fn normal(self) -> bool {
        self.den > 0 && gcd(magnitude(self.num), self.den as nat) == 1
    }

    /// The two ratios stand for the same number.
    pub open spec fn same_value(self, other: Rational) -> bool {
        self.num * other.den == other.num * self.den
    }

    /// Both parts can be held in 128 bits each, the sign apart.
    pub open spec fn fits(self) -> bool {
        magnitude(self.num) <= u128::MAX && 0 < self.den <= u128::MAX
    }

    /// The ratio with the opposite sign.
    pub open spec fn opposite(self) -> Rational {
        Rational { num: -self.num, den: self.den }
    }

    /// The ratio without its sign.
    pub open spec fn absolute(self) -> Rational {
        Rational { num: magnitude(self.num) as int, den: self.den }
    }

    /// The largest whole number that is not above the ratio.
    pub open spec fn floor(self) -> int {
        self.num / self.den
    }

    /// One divided by the ratio, which is not zero.
    pub open spec fn reciprocal(self) -> Rational {
        if self.num > 0 {
            Rational { num: self.den, den: self.num }
        } else {
            Rational { num: -self.den, den: -self.num }
        }
    }

    /// The sum of two ratios over the product of their denominators.
    pub open spec fn plus(self, other: Rational) -> Rational {
        Rational {
            num: self.num * other.den + other.num * self.den,
            den: self.den * other.den,
        }
    }

    /// The product of two ratios, numerator by numerator and denominator by
    /// denominator.
    pub open spec fn times(self, other: Rational) -> Rational {
        Rational { num: self.num * other.num, den: self.den * other.den }
    }

    /// The sum of two ratios over the least common multiple of their
    /// denominators, before common divisors are taken out.
    pub open spec fn sum_form(self, other: Rational) -> Rational {
        let g = gcd(self.den as nat, other.den as nat) as int;
        Rational {
            num: self.num * (other.den / g) + other.num * (self.den / g),
            den: (self.den / g) * other.den,
        }
    }

    /// The sum can be formed in 128 bits: each numerator brought to the
    /// common denominator fits, and so does the sum over it.
    pub open spec fn sum_fits(self, other: Rational) -> bool {
        let g = gcd(self.den as nat, other.den as nat) as int;
        &&& magnitude(self.num) * (other.den / g) <= u128::MAX
        &&& magnitude(other.num) * (self.den / g) <= u128::MAX
        &&& self.sum_form(other).fits()
    }

    /// The product of two ratios in lowest terms, after each numerator has
    /// given up what it shares with the other's denominator. It is in lowest
    /// terms itself.
    pub open spec fn product_form(self, other: Rational) -> Rational {
        let g1 = gcd(magnitude(self.num), other.den as nat) as int;
        let g2 = gcd(magnitude(other.num), self.den as nat) as int;
        Rational {
            num: toward_zero(self.num, g1) * toward_zero(other.num, g2),
            den: (self.den / g2) * (other.den / g1),
        }
    }
}

/// The sum of two scalars, in lowest terms, where it can be formed over the
/// least common multiple of the denominators; no number otherwise.
pub open spec fn sum(a: Option<Rational>, b: Option<Rational>) -> Option<Rational> {
    match (a, b) {
        (Some(x), Some(y)) => if x.sum_fits(y) {
            let e = x.plus(y);
            Some(lowest_terms(e.num, e.den))
        } else {
            None
        },
        _ => None,
    }
}

/// The scalar with the opposite sign.
pub open spec fn negation(a: Option<Rational>) -> Option<Rational> {
    match a {
        Some(x) => Some(x.opposite()),
        None => None,
    }
}

/// The difference of two scalars: the first plus the opposite of the second.
pub open spec fn difference(a: Option<Rational>, b: Option<Rational>) -> Option<Rational> {
    sum(a, negation(b))
}

/// The product of two scalars, in lowest terms, where that fits in 128 bits;
/// no number otherwise.
pub open spec fn product(a: Option<Rational>, b: Option<Rational>) -> Option<Rational> {
    match (a, b) {
        (Some(x), Some(y)) => {
            let e = x.times(y);
            let p = lowest_terms(e.num, e.den);
            if p.fits() {
                Some(p)
            } else {
                None
            }
        },
        _ => None,
    }
}

/// The quotient of two scalars: the first times the reciprocal of the second.
/// Nothing can be divided by zero.
pub open spec fn quotient(a: Option<Rational>, b: Option<Rational>) -> Option<Rational> {
    match b {
        Some(y) => if y.num == 0 {
            None
        } else {
            product(a, Some(y.reciprocal()))
        },
        None => None,
    }
}

/// Rounding toward zero divides the magnitude.
pub proof fn lemma_toward_zero(n: int, g: int)
    requires
        g > 0,
    ensures
        magnitude(toward_zero(n, g)) == magnitude(n) / (g as nat),
        n >= 0 ==> toward_zero(n, g) >= 0,
        n <= 0 ==> toward_zero(n, g) <= 0,
        toward_zero(-n, g) == -toward_zero(n, g),
{
    if n >= 0 {
        assert(n / g >= 0) by (nonlinear_arith)
            requires
                n >= 0,
                g > 0,
        ;
    } else {
        assert((-n) / g >= 0) by (nonlinear_arith)
            requires
                -n >= 0,
                g > 0,
        ;
    }
}

/// Taking the common divisors out leaves a ratio in lowest terms that stands for
/// the same number and is no larger in either part.
pub proof fn lemma_lowest_terms(n: int, d: int)
    requires
        d > 0,
    ensures
        lowest_terms(n, d).normal(),
        lowest_terms(n, d).same_value(Rational { num: n, den: d }),
        magnitude(lowest_terms(n, d).num) <= magnitude(n),
        lowest_terms(n, d).den <= d,
        n >= 0 ==> lowest_terms(n, d).num >= 0,
        n <= 0 ==> lowest_terms(n, d).num <= 0,
        n != 0 ==> lowest_terms(n, d).num != 0,
{
    let m = magnitude(n);
    let g = gcd(m, d as nat);
    lemma_gcd_divides(m, d as nat);
    lemma_quotients_coprime(m, d as nat);
    lemma_divides_exact(g, m);
    lemma_divides_exact(g, d as nat);
    lemma_toward_zero(n, g as int);
    let r = lowest_terms(n, d);
    let qm = m / g;
    let qd = (d as nat) / g;
    assert(r.den == qd);
    assert(magnitude(r.num) == qm);
    assert(qm <= m && qd <= d && qd > 0 && (m != 0 ==> qm != 0)) by (nonlinear_arith)
        requires
            m == g * qm,
            d == g * qd,
            g > 0,
            d > 0,
    ;
    assert(qm * d == m * qd) by (nonlinear_arith)
        requires
            m == g * qm,
            d == g * qd,
    ;
    if n >= 0 {
        assert(r.num == qm);
    } else {
        assert(r.num == -(qm as int));
        assert((-(qm as int)) * d == (-(m as int)) * (qd as int)) by (nonlinear_arith)
            requires
                qm * d == m * qd,
        ;
    }
}

/// A ratio is its lowest terms with both parts multiplied by the same
/// positive number.
pub proof fn lemma_lowest_terms_factor(n: int, d: int)
    requires
        d > 0,
    ensures
        ({
            let r = lowest_terms(n, d);
            let k = d / r.den;
            k > 0 && n == k * r.num && d == k * r.den
        }),
{
    let m = magnitude(n);
    let g = gcd(m, d as nat);
    lemma_gcd_divides(m, d as nat);
    lemma_divides_exact(g, m);
    lemma_divides_exact(g, d as nat);
    lemma_toward_zero(n, g as int);
    let r = lowest_terms(n, d);
    let qd = (d as nat) / g;
    assert(qd > 0) by (nonlinear_arith)
        requires
            d == g * qd,
            d > 0,
            g > 0,
    ;
    assert(d / (qd as int) == g) by {
        vstd::arithmetic::div_mod::lemma_fundamental_div_mod_converse(
            d,
            qd as int,
            g as int,
            0,
        );
        assert(d == g * qd + 0);
        assert(g * qd == qd * g) by (nonlinear_arith);
    }
    assert(n == g * r.num) by (nonlinear_arith)
        requires
            m == g * magnitude(r.num),
            m == magnitude(n),
            n >= 0 ==> r.num >= 0,
            n <= 0 ==> r.num <= 0,
    ;
}

/// Two ratios in lowest terms that stand for the same number are the same ratio.
pub proof fn lemma_normal_unique(x: Rational, y: Rational)
    requires
        x.normal(),
        y.normal(),
        x.same_value(y),
    ensures
        x == y,
{
    let a = magnitude(x.num);
    let b = magnitude(y.num);
    assert(a * y.den == b * x.den) by (nonlinear_arith)
        requires
            x.num * y.den == y.num * x.den,
            x.den > 0,
            y.den > 0,
            a == magnitude(x.num),
            b == magnitude(y.num),
    ;
    lemma_lowest_terms_unique(a, x.den as nat, b, y.den as nat);
    assert(x.num == y.num) by (nonlinear_arith)
        requires
            x.num * y.den == y.num * x.den,
            x.den == y.den,
            x.den > 0,
    ;
}

/// Ratios that stand for the same number have the same lowest terms.
pub proof fn lemma_same_value_same_terms(n1: int, d1: int, n2: int, d2: int)
    requires
        d1 > 0,
        d2 > 0,
        n1 * d2 == n2 * d1,
    ensures
        lowest_terms(n1, d1) == lowest_terms(n2, d2),
{
    let x = lowest_terms(n1, d1);
    let y = lowest_terms(n2, d2);
    lemma_lowest_terms(n1, d1);
    lemma_lowest_terms(n2, d2);
    assert(x.num * y.den == y.num * x.den) by (nonlinear_arith)
        requires
            x.num * d1 == n1 * x.den,
            y.num * d2 == n2 * y.den,
            n1 * d2 == n2 * d1,
            d1 > 0,
            d2 > 0,
            x.den > 0,
            y.den > 0,
    ;
    lemma_normal_unique(x, y);
}

/// A ratio in lowest terms is its own lowest terms.
pub proof fn lemma_normal_is_lowest(x: Rational)
    requires
        x.normal(),
    ensures
        lowest_terms(x.num, x.den) == x,
{
    lemma_lowest_terms(x.num, x.den);
    lemma_normal_unique(lowest_terms(x.num, x.den), x);
}

/// The lowest terms of the opposite are the opposite of the lowest terms.
pub proof fn lemma_lowest_terms_opposite(n: int, d: int)
    requires
        d > 0,
    ensures
        lowest_terms(-n, d) == lowest_terms(n, d).opposite(),
{
    let g = gcd(magnitude(n), d as nat) as int;
    lemma_gcd_divides(magnitude(n), d as nat);
    lemma_toward_zero(n, g);
    assert(magnitude(-n) == magnitude(n));
}

/// A whole number is in lowest terms.
pub proof fn lemma_whole_normal(n: int)
    ensures
        Rational::whole(n).normal(),
{
    lemma_gcd_one(magnitude(n));
}

/// The reciprocal of a ratio in lowest terms that is not zero is in lowest
/// terms, and fits where the ratio does.
pub proof fn lemma_reciprocal_normal(x: Rational)
    requires
        x.normal(),
        x.num != 0,
    ensures
        x.reciprocal().normal(),
        x.fits() ==> x.reciprocal().fits(),
{
    lemma_gcd_symmetric(magnitude(x.num), x.den as nat);
}

/// Multiplying by one changes nothing.
pub proof fn lemma_product_one(x: Rational)
    requires
        x.normal(),
        x.fits(),
    ensures
        product(Some(x), Some(Rational::whole(1))) == Some(x),
        product(Some(Rational::whole(1)), Some(x)) == Some(x),
{
    lemma_normal_is_lowest(x);
    let one = Rational::whole(1);
    assert(x.times(one) == x) by {
        assert(x.num * 1 == x.num && x.den * 1 == x.den) by (nonlinear_arith);
    }
    assert(one.times(x) == x) by {
        assert(1 * x.num == x.num && 1 * x.den == x.den) by (nonlinear_arith);
    }
}

/// One divided by a ratio is its reciprocal.
pub proof fn lemma_quotient_of_one(x: Rational)
    requires
        x.normal(),
        x.fits(),
        x.num != 0,
    ensures
        quotient(Some(Rational::whole(1)), Some(x)) == Some(x.reciprocal()),
{
    lemma_reciprocal_normal(x);
    lemma_product_one(x.reciprocal());
}

/// The sum over the least common multiple of the denominators stands for
/// the sum, and so has its lowest terms.
pub proof fn lemma_sum_form(x: Rational, y: Rational)
    requires
        x.den > 0,
        y.den > 0,
    ensures
        x.sum_form(y).den > 0,
        x.plus(y).den > 0,
        lowest_terms(x.sum_form(y).num, x.sum_form(y).den) == lowest_terms(
            x.plus(y).num,
            x.plus(y).den,
        ),
{
    let g = gcd(x.den as nat, y.den as nat) as int;
    lemma_gcd_divides(x.den as nat, y.den as nat);
    lemma_divides_exact(g as nat, x.den as nat);
    lemma_divides_exact(g as nat, y.den as nat);
    let b = x.den / g;
    let d = y.den / g;
    let f = x.sum_form(y);
    let e = x.plus(y);
    assert(b > 0 && d > 0) by (nonlinear_arith)
        requires
            x.den == g * b,
            y.den == g * d,
            x.den > 0,
            y.den > 0,
            g > 0,
    ;
    assert(f.den > 0 && e.den > 0) by (nonlinear_arith)
        requires
            f.den == b * y.den,
            e.den == x.den * y.den,
            b > 0,
            x.den > 0,
            y.den > 0,
    ;
    assert(e.num == g * f.num) by (nonlinear_arith)
        requires
            y.den == g * d,
            x.den == g * b,
            f.num == x.num * d + y.num * b,
            e.num == x.num * y.den + y.num * x.den,
    ;
    assert(e.den == g * f.den) by (nonlinear_arith)
        requires
            x.den == g * b,
            f.den == b * y.den,
            e.den == x.den * y.den,
    ;
    assert(f.num * e.den == e.num * f.den) by (nonlinear_arith)
        requires
            e.num == g * f.num,
            e.den == g * f.den,
    ;
    lemma_same_value_same_terms(f.num, f.den, e.num, e.den);
}

/// The product formed crosswise is the product in lowest terms.
pub proof fn lemma_product_form(x: Rational, y: Rational)
    requires
        x.normal(),
        y.normal(),
    ensures
        x.times(y).den > 0,
        x.product_form(y).normal(),
        x.product_form(y) == lowest_terms(x.times(y).num, x.times(y).den),
{
    let xn = magnitude(x.num);
    let yn = magnitude(y.num);
    let xd = x.den as nat;
    let yd = y.den as nat;
    let g1 = gcd(xn, yd);
    let g2 = gcd(yn, xd);
    lemma_gcd_divides(xn, yd);
    lemma_gcd_divides(yn, xd);
    lemma_divides_exact(g1, xn);
    lemma_divides_exact(g1, yd);
    lemma_divides_exact(g2, yn);
    lemma_divides_exact(g2, xd);
    lemma_toward_zero(x.num, g1 as int);
    lemma_toward_zero(y.num, g2 as int);
    let a = xn / g1;
    let d = yd / g1;
    let c = yn / g2;
    let b = xd / g2;
    let f = x.product_form(y);
    let e = x.times(y);
    assert(b > 0 && d > 0) by (nonlinear_arith)
        requires
            xd == g2 * b,
            yd == g1 * d,
            xd > 0,
            yd > 0,
    ;
    assert(f.den == b * d);
    assert(f.den > 0 && e.den > 0) by (nonlinear_arith)
        requires
            f.den == b * d,
            e.den == x.den * y.den,
            b > 0,
            d > 0,
            x.den > 0,
            y.den > 0,
    ;
    // the crosswise product stands for the product
    let ta = toward_zero(x.num, g1 as int);
    let tc = toward_zero(y.num, g2 as int);
    assert(x.num == g1 * ta) by (nonlinear_arith)
        requires
            magnitude(x.num) == g1 * magnitude(ta),
            x.num >= 0 ==> ta >= 0,
            x.num <= 0 ==> ta <= 0,
    ;
    assert(y.num == g2 * tc) by (nonlinear_arith)
        requires
            magnitude(y.num) == g2 * magnitude(tc),
            y.num >= 0 ==> tc >= 0,
            y.num <= 0 ==> tc <= 0,
    ;
    assert(e.num == (g1 * g2) * f.num) by (nonlinear_arith)
        requires
            x.num == g1 * ta,
            y.num == g2 * tc,
            f.num == ta * tc,
            e.num == x.num * y.num,
    ;
    assert(e.den == (g1 * g2) * f.den) by (nonlinear_arith)
        requires
            x.den == g2 * b,
            y.den == g1 * d,
            f.den == b * d,
            e.den == x.den * y.den,
    ;
    assert(f.num * e.den == e.num * f.den) by (nonlinear_arith)
        requires
            e.num == (g1 * g2) * f.num,
            e.den == (g1 * g2) * f.den,
    ;
    // and is in lowest terms
    assert(magnitude(f.num) == a * c) by (nonlinear_arith)
        requires
            f.num == ta * tc,
            magnitude(ta) == a,
            magnitude(tc) == c,
    ;
    lemma_quotients_coprime(xn, yd);
    lemma_quotients_coprime(yn, xd);
    lemma_multiple_divides(b, g2);
    lemma_multiple_divides(d, g1);
    assert(b * g2 == xd && d * g1 == yd) by (nonlinear_arith)
        requires
            xd == g2 * b,
            yd == g1 * d,
    ;
    // a has no common divisor with b, c none with d
    lemma_gcd_symmetric(xn, xd);
    lemma_coprime_divisor(xd, xn, b);
    lemma_gcd_symmetric(yn, yd);
    lemma_coprime_divisor(yd, yn, d);
    if a > 0 {
        lemma_multiple_divides(a, g1);
        assert(a * g1 == xn) by (nonlinear_arith)
            requires
                xn == g1 * a,
        ;
        lemma_gcd_symmetric(b, xn);
        lemma_coprime_divisor(xn, b, a);
    } else {
        assert(xn == 0) by (nonlinear_arith)
            requires
                xn == g1 * a,
                a == 0,
        ;
        lemma_gcd_zero(xd);
        lemma_gcd_one(yn);
        assert(b == 1);
        lemma_gcd_one(a);
    }
    if c > 0 {
        lemma_multiple_divides(c, g2);
        assert(c * g2 == yn) by (nonlinear_arith)
            requires
                yn == g2 * c,
        ;
        lemma_gcd_symmetric(d, yn);
        lemma_coprime_divisor(yn, d, c);
    } else {
        assert(yn == 0) by (nonlinear_arith)
            requires
                yn == g2 * c,
                c == 0,
        ;
        lemma_gcd_zero(yd);
        lemma_gcd_one(xn);
        assert(d == 1);
        lemma_gcd_one(c);
    }
    assert(gcd(a, b) == 1 && gcd(c, d) == 1 && gcd(a, d) == 1 && gcd(c, b) == 1);
    lemma_coprime_product(a, c, b);
    lemma_coprime_product(a, c, d);
    lemma_gcd_symmetric(a * c, b);
    lemma_gcd_symmetric(a * c, d);
    lemma_coprime_product(b, d, a * c);
    lemma_gcd_symmetric(b * d, a * c);
    assert(f.normal());
    lemma_same_value_same_terms(f.num, f.den, e.num, e.den);
    lemma_normal_is_lowest(f);
}

} // verus!
