//! The extended-precision scalar: an exact ratio of two 128-bit magnitudes with
//! a sign, always in lowest terms.
//!
//! Every operation is exact. Where an exact result cannot be formed in 128 bits,
//! or does not exist, the operation gives the one value that is no number, and
//! every operation on that value gives it back.

use crate::fraction::Fraction;
use crate::numtheory::{
    gcd, gcd_u128, lemma_divisor_bound, lemma_gcd_divides, lemma_gcd_one, lemma_gcd_symmetric,
    lemma_gcd_zero,
};
use crate::rational::{
    difference, lemma_lowest_terms, lemma_normal_is_lowest, lemma_product_form, lemma_sum_form,
    lemma_toward_zero, lowest_terms, magnitude, negation, product, quotient, sum, toward_zero,
    Rational,
};
use vstd::prelude::*;
use vstd::std_specs::convert::FromSpecImpl;
use vstd::std_specs::ops::{AddSpecImpl, DivSpecImpl, MulSpecImpl, NegSpecImpl, SubSpecImpl};

verus! {

/// An exact scalar, or the value that is no number.
#[derive(Clone, Copy, Debug, PartialEq, Eq, Structural)]
pub struct Decimal {
    negative: bool,
    num: u128,
    den: u128,
}

/// The integer with magnitude `m` and the sign that `negative` gives.
pub open spec fn signed(negative: bool, m: int) -> int {
    if negative {
        -m
    } else {
        m
    }
}

impl View for Decimal {
    type V = Option<Rational>;

    /// The ratio that the scalar holds, or `None` where it is no number.
    closed spec fn view(&self) -> Option<Rational> {
        if self.den == 0 {
            None
        } else {
            Some(Rational { num: signed(self.negative, self.num as int), den: self.den as int })
        }
    }
}

impl Decimal {
    /// A number is held in lowest terms and zero has no sign; the value that
    /// is no number has one form only.
    #[verifier::type_invariant]
    pub closed spec fn wf(self) -> bool {
        if self.den == 0 {
            self.num == 0 && !self.negative
        } else {
            gcd(self.num as nat, self.den as nat) == 1 && (self.num == 0 ==> !self.negative)
        }
    }

    /// The scalar that holds `v`, for a `v` that a scalar can hold.
    pub closed spec fn holding(v: Option<Rational>) -> Decimal {
        match v {
            None => Decimal { negative: false, num: 0, den: 0 },
            Some(r) => Decimal {
                negative: r.num < 0,
                num: magnitude(r.num) as u128,
                den: r.den as u128,
            },
        }
    }

    /// A well-formed scalar holds a ratio in lowest terms whose parts fit, and
    /// is the only scalar that holds it.
    pub proof fn lemma_view(self)
        requires
            self.wf(),
        ensures
            self@ matches Some(r) ==> r.normal() && r.fits(),
            Decimal::holding(self@) == self,
    {
    }

    /// Scalars that hold the same are the same.
    pub proof fn lemma_view_injective(self, other: Decimal)
        requires
            self.wf(),
            other.wf(),
            self@ == other@,
        ensures
            self == other,
    {
        self.lemma_view();
        other.lemma_view();
    }

    /// What `holding` gives for a ratio in lowest terms that fits is well
    /// formed and holds that ratio.
    pub proof fn lemma_holding(v: Option<Rational>)
        requires
            v matches Some(r) ==> r.normal() && r.fits(),
        ensures
            Decimal::holding(v).wf(),
            Decimal::holding(v)@ == v,
    {
        if let Some(r) = v {
            if r.num == 0 {
                lemma_gcd_zero(r.den as nat);
            }
        }
    }

    /// The value that is no number. There is one such value, and it equals
    /// itself.
    pub fn nan() -> (r: Decimal)
        ensures
            r@.is_none(),
            r == Decimal::holding(r@),
    {
        Decimal { negative: false, num: 0, den: 0 }
    }

    /// The scalar `num / den`, negative if `negative` says so, brought to
    /// lowest terms.
    pub fn from_parts(negative: bool, num: u128, den: u128) -> (r: Decimal)
        ensures
            den == 0 ==> r@.is_none(),
            den != 0 ==> r@ == Some(lowest_terms(signed(negative, num as int), den as int)),
            r == Decimal::holding(r@),
    {
        if den == 0 {
            return Decimal::nan();
        }
        let g: u128 = gcd_u128(num, den);
        proof {
            let n = signed(negative, num as int);
            lemma_gcd_divides(num as nat, den as nat);
            lemma_lowest_terms(n, den as int);
            lemma_toward_zero(n, g as int);
            assert(magnitude(n) == num);
        }
        let n: u128 = num / g;
        let d: u128 = den / g;
        Decimal { negative: negative && n != 0, num: n, den: d }
    }

    /// The scalar of the same value as `fraction`; no number where its
    /// denominator is zero.
    pub fn from_fraction(fraction: Fraction) -> (r: Decimal)
        ensures
            r@ == if fraction@.den == 0 {
                None
            } else {
                Some(lowest_terms(fraction@.num, fraction@.den))
            },
    {
        fraction.to_decimal()
    }

    /// Whether the scalar is no number.
    pub fn is_nan(&self) -> (b: bool)
        ensures
            b == self@.is_none(),
    {
        self.den == 0
    }

    /// Whether the scalar is a number below zero.
    pub fn is_negative(&self) -> (b: bool)
        ensures
            b == (self@ matches Some(r) && r.num < 0),
    {
        proof {
            use_type_invariant(self);
        }
        self.den != 0 && self.negative
    }

    /// Whether the scalar is the number zero.
    pub fn is_zero(&self) -> (b: bool)
        ensures
            b == (self@ matches Some(r) && r.num == 0),
    {
        self.den != 0 && self.num == 0
    }

    /// The magnitude of the numerator in lowest terms; zero for no number.
    pub fn numer(&self) -> (n: u128)
        ensures
            n == match self@ {
                Some(r) => magnitude(r.num),
                None => 0,
            },
    {
        proof {
            use_type_invariant(self);
        }
        self.num
    }

    /// The denominator in lowest terms; zero for no number.
    pub fn denom(&self) -> (d: u128)
        ensures
            d == match self@ {
                Some(r) => r.den,
                None => 0,
            },
            self@.is_some() ==> d > 0,
    {
        self.den
    }

    /// The scalar without its sign.
    pub fn abs(self) -> (r: Decimal)
        ensures
            r@ == match self@ {
                Some(x) => Some(x.absolute()),
                None => None,
            },
    {
        proof {
            use_type_invariant(self);
        }
        Decimal { negative: false, num: self.num, den: self.den }
    }

    /// The largest whole number that is not above the scalar. It is no number
    /// where the scalar is none.
    pub fn floor(self) -> (r: Decimal)
        ensures
            r@ == match self@ {
                Some(x) => Some(Rational::whole(x.floor())),
                None => None,
            },
    {
        proof {
            use_type_invariant(self);
        }
        if self.den == 0 {
            return self;
        }
        let q: u128 = self.num / self.den;
        let rem: u128 = self.num % self.den;
        proof {
            let n = self.num as int;
            let d = self.den as int;
            lemma_gcd_one(q as nat);
            lemma_gcd_one((q + 1) as nat);
            vstd::arithmetic::div_mod::lemma_fundamental_div_mod(n, d);
            if self.negative {
                if rem == 0 {
                    assert(-n == (-(q as int)) * d + 0) by (nonlinear_arith)
                        requires
                            n == d * q + 0,
                    ;
                    vstd::arithmetic::div_mod::lemma_fundamental_div_mod_converse(
                        -n,
                        d,
                        -(q as int),
                        0,
                    );
                } else {
                    assert(-n == (-(q as int) - 1) * d + (d - rem)) by (nonlinear_arith)
                        requires
                            n == d * q + rem,
                    ;
                    vstd::arithmetic::div_mod::lemma_fundamental_div_mod_converse(
                        -n,
                        d,
                        -(q as int) - 1,
                        d - rem,
                    );
                    if d == 1 {
                        assert(rem == 0);
                    }
                    assert(q < u128::MAX) by (nonlinear_arith)
                        requires
                            n == d * q + rem,
                            d >= 2,
                            q >= 0,
                            rem >= 0,
                            n <= u128::MAX,
                    ;
                }
            }
        }
        if self.negative && rem != 0 {
            Decimal { negative: true, num: q + 1, den: 1 }
        } else {
            Decimal { negative: self.negative && q != 0, num: q, den: 1 }
        }
    }
}

impl NegSpecImpl for Decimal {
    open spec fn obeys_neg_spec() -> bool {
        true
    }

    open spec fn neg_req(self) -> bool {
        true
    }

    closed spec fn neg_spec(self) -> Decimal {
        Decimal::holding(negation(self@))
    }
}

impl core::ops::Neg for Decimal {
    type Output = Decimal;

    /// The scalar with the opposite sign.
    fn neg(self) -> (r: Decimal)
        ensures
            r@ == negation(self@),
    {
        proof {
            use_type_invariant(self);
        }
        Decimal { negative: !self.negative && self.num != 0, num: self.num, den: self.den }
    }
}

impl MulSpecImpl for Decimal {
    open spec fn obeys_mul_spec() -> bool {
        true
    }

    open spec fn mul_req(self, rhs: Decimal) -> bool {
        true
    }

    closed spec fn mul_spec(self, rhs: Decimal) -> Decimal {
        Decimal::holding(product(self@, rhs@))
    }
}

impl core::ops::Mul for Decimal {
    type Output = Decimal;

    /// The exact product, or no number where it does not fit.
    fn mul(self, rhs: Decimal) -> (r: Decimal)
        ensures
            r@ == product(self@, rhs@),
    {
        proof {
            use_type_invariant(self);
            use_type_invariant(rhs);
        }
        if self.den == 0 || rhs.den == 0 {
            return Decimal::nan();
        }
        let g1: u128 = gcd_u128(self.num, rhs.den);
        let g2: u128 = gcd_u128(rhs.num, self.den);
        proof {
            lemma_gcd_divides(self.num as nat, rhs.den as nat);
            lemma_gcd_divides(rhs.num as nat, self.den as nat);
            lemma_divisor_bound(g1 as nat, rhs.den as nat);
            lemma_divisor_bound(g2 as nat, self.den as nat);
        }
        let a: u128 = self.num / g1;
        let c: u128 = rhs.num / g2;
        let b: u128 = self.den / g2;
        let d: u128 = rhs.den / g1;
        let negative = self.negative != rhs.negative;
        proof {
            let x = self@.unwrap();
            let y = rhs@.unwrap();
            let f = x.product_form(y);
            lemma_product_form(x, y);
            lemma_normal_is_lowest(f);
            lemma_toward_zero(x.num, g1 as int);
            lemma_toward_zero(y.num, g2 as int);
            assert(magnitude(x.num) == self.num && magnitude(y.num) == rhs.num);
            let tx = toward_zero(x.num, g1 as int);
            let ty = toward_zero(y.num, g2 as int);
            assert(magnitude(tx) == a && magnitude(ty) == c);
            assert(f.den == b * d);
            assert(b * d > 0) by (nonlinear_arith)
                requires
                    b >= 1,
                    d >= 1,
            ;
            assert(tx * ty == signed(negative, a * c)) by (nonlinear_arith)
                requires
                    magnitude(tx) == a,
                    magnitude(ty) == c,
                    self.negative ==> tx <= 0,
                    !self.negative ==> tx >= 0,
                    rhs.negative ==> ty <= 0,
                    !rhs.negative ==> ty >= 0,
                    negative == (self.negative != rhs.negative),
            ;
            assert(magnitude(f.num) == a * c);
        }
        match (a.checked_mul(c), b.checked_mul(d)) {
            (Some(n), Some(m)) => Decimal { negative: negative && n != 0, num: n, den: m },
            _ => Decimal::nan(),
        }
    }
}

impl AddSpecImpl for Decimal {
    open spec fn obeys_add_spec() -> bool {
        true
    }

    open spec fn add_req(self, rhs: Decimal) -> bool {
        true
    }

    closed spec fn add_spec(self, rhs: Decimal) -> Decimal {
        Decimal::holding(sum(self@, rhs@))
    }
}

impl core::ops::Add for Decimal {
    type Output = Decimal;

    /// The exact sum, or no number where it cannot be formed.
    fn add(self, rhs: Decimal) -> (r: Decimal)
        ensures
            r@ == sum(self@, rhs@),
    {
        proof {
            use_type_invariant(self);
            use_type_invariant(rhs);
        }
        if self.den == 0 || rhs.den == 0 {
            return Decimal::nan();
        }
        let g: u128 = gcd_u128(self.den, rhs.den);
        proof {
            lemma_gcd_divides(self.den as nat, rhs.den as nat);
            lemma_divisor_bound(g as nat, rhs.den as nat);
            lemma_divisor_bound(g as nat, self.den as nat);
        }
        let b: u128 = self.den / g;
        let d: u128 = rhs.den / g;
        let ghost x = self@.unwrap();
        let ghost y = rhs@.unwrap();
        let ghost f = x.sum_form(y);
        proof {
            lemma_sum_form(x, y);
            assert(magnitude(x.num) == self.num && magnitude(y.num) == rhs.num);
            assert(f.den == b * rhs.den);
            assert(b * rhs.den > 0) by (nonlinear_arith)
                requires
                    b >= 1,
                    rhs.den >= 1,
            ;
            assert(x.num * (d as int) == signed(self.negative, self.num * d)) by (nonlinear_arith)
                requires
                    x.num == signed(self.negative, self.num as int),
            ;
            assert(y.num * (b as int) == signed(rhs.negative, rhs.num * b)) by (nonlinear_arith)
                requires
                    y.num == signed(rhs.negative, rhs.num as int),
            ;
        }
        match (self.num.checked_mul(d), rhs.num.checked_mul(b), b.checked_mul(rhs.den)) {
            (Some(p), Some(q), Some(m)) => {
                assert(f.num == signed(self.negative, p as int) + signed(rhs.negative, q as int));
                if self.negative == rhs.negative {
                    match p.checked_add(q) {
                        Some(n) => Decimal::from_parts(self.negative, n, m),
                        None => Decimal::nan(),
                    }
                } else if p >= q {
                    Decimal::from_parts(self.negative, p - q, m)
                } else {
                    Decimal::from_parts(rhs.negative, q - p, m)
                }
            },
            _ => Decimal::nan(),
        }
    }
}

impl SubSpecImpl for Decimal {
    open spec fn obeys_sub_spec() -> bool {
        true
    }

    open spec fn sub_req(self, rhs: Decimal) -> bool {
        true
    }

    closed spec fn sub_spec(self, rhs: Decimal) -> Decimal {
        Decimal::holding(difference(self@, rhs@))
    }
}

impl core::ops::Sub for Decimal {
    type Output = Decimal;

    /// The exact difference, or no number where it cannot be formed.
    fn sub(self, rhs: Decimal) -> (r: Decimal)
        ensures
            r@ == difference(self@, rhs@),
    {
        self + core::ops::Neg::neg(rhs)
    }
}

impl DivSpecImpl for Decimal {
    open spec fn obeys_div_spec() -> bool {
        true
    }

    open spec fn div_req(self, rhs: Decimal) -> bool {
        true
    }

    closed spec fn div_spec(self, rhs: Decimal) -> Decimal {
        Decimal::holding(quotient(self@, rhs@))
    }
}

impl core::ops::Div for Decimal {
    type Output = Decimal;

    /// The exact quotient; no number where it does not fit or the divisor is
    /// zero.
    fn div(self, rhs: Decimal) -> (r: Decimal)
        ensures
            r@ == quotient(self@, rhs@),
    {
        proof {
            use_type_invariant(rhs);
        }
        if rhs.den == 0 || rhs.num == 0 {
            return Decimal::nan();
        }
        proof {
            lemma_gcd_symmetric(rhs.num as nat, rhs.den as nat);
        }
        let inverse = Decimal { negative: rhs.negative, num: rhs.den, den: rhs.num };
        self * inverse
    }
}

impl Decimal {
    /// The whole number with magnitude `m` and the sign that `negative` gives.
    pub fn from_magnitude(negative: bool, m: u128) -> (r: Decimal)
        ensures
            r@ == Some(Rational::whole(signed(negative, m as int))),
            r == Decimal::holding(r@),
    {
        proof {
            lemma_gcd_one(m as nat);
        }
        Decimal { negative: negative && m != 0, num: m, den: 1 }
    }
}

impl FromSpecImpl<u8> for Decimal {
    open spec fn obeys_from_spec() -> bool {
        true
    }

    closed spec fn from_spec(v: u8) -> Decimal {
        Decimal::holding(Some(Rational::whole(v as int)))
    }
}

impl From<u8> for Decimal {
    /// The whole number `v`.
    fn from(v: u8) -> (r: Decimal)
        ensures
            r@ == Some(Rational::whole(v as int)),
    {
        Decimal::from_magnitude(false, v as u128)
    }
}

impl FromSpecImpl<u16> for Decimal {
    open spec fn obeys_from_spec() -> bool {
        true
    }

    closed spec fn from_spec(v: u16) -> Decimal {
        Decimal::holding(Some(Rational::whole(v as int)))
    }
}

impl From<u16> for Decimal {
    /// The whole number `v`.
    fn from(v: u16) -> (r: Decimal)
        ensures
            r@ == Some(Rational::whole(v as int)),
    {
        Decimal::from_magnitude(false, v as u128)
    }
}

impl FromSpecImpl<u32> for Decimal {
    open spec fn obeys_from_spec() -> bool {
        true
    }

    closed spec fn from_spec(v: u32) -> Decimal {
        Decimal::holding(Some(Rational::whole(v as int)))
    }
}

impl From<u32> for Decimal {
    /// The whole number `v`.
    fn from(v: u32) -> (r: Decimal)
        ensures
            r@ == Some(Rational::whole(v as int)),
    {
        Decimal::from_magnitude(false, v as u128)
    }
}

impl FromSpecImpl<u64> for Decimal {
    open spec fn obeys_from_spec() -> bool {
        true
    }

    closed spec fn from_spec(v: u64) -> Decimal {
        Decimal::holding(Some(Rational::whole(v as int)))
    }
}

impl From<u64> for Decimal {
    /// The whole number `v`.
    fn from(v: u64) -> (r: Decimal)
        ensures
            r@ == Some(Rational::whole(v as int)),
    {
        Decimal::from_magnitude(false, v as u128)
    }
}

impl FromSpecImpl<u128> for Decimal {
    open spec fn obeys_from_spec() -> bool {
        true
    }

    closed spec fn from_spec(v: u128) -> Decimal {
        Decimal::holding(Some(Rational::whole(v as int)))
    }
}

impl From<u128> for Decimal {
    /// The whole number `v`.
    fn from(v: u128) -> (r: Decimal)
        ensures
            r@ == Some(Rational::whole(v as int)),
    {
        Decimal::from_magnitude(false, v)
    }
}

impl FromSpecImpl<i8> for Decimal {
    open spec fn obeys_from_spec() -> bool {
        true
    }

    closed spec fn from_spec(v: i8) -> Decimal {
        Decimal::holding(Some(Rational::whole(v as int)))
    }
}

impl From<i8> for Decimal {
    /// The whole number `v`.
    fn from(v: i8) -> (r: Decimal)
        ensures
            r@ == Some(Rational::whole(v as int)),
    {
        let wide: i128 = v as i128;
        if wide < 0 {
            Decimal::from_magnitude(true, (-wide) as u128)
        } else {
            Decimal::from_magnitude(false, wide as u128)
        }
    }
}

impl FromSpecImpl<i16> for Decimal {
    open spec fn obeys_from_spec() -> bool {
        true
    }

    closed spec fn from_spec(v: i16) -> Decimal {
        Decimal::holding(Some(Rational::whole(v as int)))
    }
}

impl From<i16> for Decimal {
    /// The whole number `v`.
    fn from(v: i16) -> (r: Decimal)
        ensures
            r@ == Some(Rational::whole(v as int)),
    {
        let wide: i128 = v as i128;
        if wide < 0 {
            Decimal::from_magnitude(true, (-wide) as u128)
        } else {
            Decimal::from_magnitude(false, wide as u128)
        }
    }
}

impl FromSpecImpl<i32> for Decimal {
    open spec fn obeys_from_spec() -> bool {
        true
    }

    closed spec fn from_spec(v: i32) -> Decimal {
        Decimal::holding(Some(Rational::whole(v as int)))
    }
}

impl From<i32> for Decimal {
    /// The whole number `v`.
    fn from(v: i32) -> (r: Decimal)
        ensures
            r@ == Some(Rational::whole(v as int)),
    {
        let wide: i128 = v as i128;
        if wide < 0 {
            Decimal::from_magnitude(true, (-wide) as u128)
        } else {
            Decimal::from_magnitude(false, wide as u128)
        }
    }
}

impl FromSpecImpl<i64> for Decimal {
    open spec fn obeys_from_spec() -> bool {
        true
    }

    closed spec fn from_spec(v: i64) -> Decimal {
        Decimal::holding(Some(Rational::whole(v as int)))
    }
}

impl From<i64> for Decimal {
    /// The whole number `v`.
    fn from(v: i64) -> (r: Decimal)
        ensures
            r@ == Some(Rational::whole(v as int)),
    {
        let wide: i128 = v as i128;
        if wide < 0 {
            Decimal::from_magnitude(true, (-wide) as u128)
        } else {
            Decimal::from_magnitude(false, wide as u128)
        }
    }
}

} // verus!
