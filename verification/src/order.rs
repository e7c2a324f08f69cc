//! The order of scalars: which of two is the smaller number.

use crate::decimal::Decimal;
use crate::rational::{lemma_normal_unique, magnitude, Rational};
use core::cmp::Ordering;
use vstd::arithmetic::div_mod::{lemma_fundamental_div_mod, lemma_mod_pos_bound};
use vstd::prelude::*;
use vstd::std_specs::cmp::PartialOrdSpecImpl;

verus! {

/// The number `x` is below the number `y`, for positive denominators.
pub open spec fn below(x: Rational, y: Rational) -> bool {
    x.num * y.den < y.num * x.den
}

/// How two scalars stand to each other. Numbers are ordered by their value;
/// what is no number equals itself and stands in no order to a number.
pub open spec fn order_of(a: Option<Rational>, b: Option<Rational>) -> Option<Ordering> {
    match (a, b) {
        (Some(x), Some(y)) => if below(x, y) {
            Some(Ordering::Less)
        } else if below(y, x) {
            Some(Ordering::Greater)
        } else {
            Some(Ordering::Equal)
        },
        (None, None) => Some(Ordering::Equal),
        _ => None,
    }
}

/// Whether `a / b` is below `c / d`, found without leaving 128 bits: by the
/// whole parts, and where they agree, by what is left, turned upside down.
pub fn ratio_below(a: u128, b: u128, c: u128, d: u128) -> (r: bool)
    requires
        b > 0,
        d > 0,
    ensures
        r == (a * d < c * b),
    decreases b + d,
{
    let q1: u128 = a / b;
    let r1: u128 = a % b;
    let q2: u128 = c / d;
    let r2: u128 = c % d;
    proof {
        lemma_fundamental_div_mod(a as int, b as int);
        lemma_fundamental_div_mod(c as int, d as int);
        lemma_mod_pos_bound(a as int, b as int);
        lemma_mod_pos_bound(c as int, d as int);
    }
    if q1 != q2 {
        proof {
            if q1 < q2 {
                assert(a * d < c * b) by (nonlinear_arith)
                    requires
                        a == b * q1 + r1,
                        c == d * q2 + r2,
                        0 <= r1 < b,
                        0 <= r2 < d,
                        q1 + 1 <= q2,
                ;
            } else {
                assert(a * d >= c * b) by (nonlinear_arith)
                    requires
                        a == b * q1 + r1,
                        c == d * q2 + r2,
                        0 <= r1 < b,
                        0 <= r2 < d,
                        q2 + 1 <= q1,
                ;
            }
        }
        return q1 < q2;
    }
    proof {
        assert((a * d < c * b) == (r1 * d < r2 * b)) by (nonlinear_arith)
            requires
                a == b * q1 + r1,
                c == d * q1 + r2,
        ;
    }
    if r2 == 0 {
        proof {
            assert(r1 * d >= 0 && r2 * b == 0) by (nonlinear_arith)
                requires
                    r2 == 0,
                    r1 >= 0,
                    d > 0,
            ;
        }
        return false;
    }
    if r1 == 0 {
        proof {
            assert(r1 * d == 0 && r2 * b > 0) by (nonlinear_arith)
                requires
                    r1 == 0,
                    r2 > 0,
                    b > 0,
            ;
        }
        return true;
    }
    proof {
        assert((r1 * d < r2 * b) == (d * r1 < b * r2)) by (nonlinear_arith);
    }
    ratio_below(d, r2, b, r1)
}

impl Decimal {
    /// Whether the scalar is a number below the number `other`.
    pub fn is_below(&self, other: &Decimal) -> (r: bool)
        ensures
            r == (order_of(self@, other@) == Some(Ordering::Less)),
    {
        if self.is_nan() || other.is_nan() {
            return false;
        }
        let ghost x = self@.unwrap();
        let ghost y = other@.unwrap();
        let a: u128 = self.numer();
        let b: u128 = self.denom();
        let c: u128 = other.numer();
        let d: u128 = other.denom();
        if self.is_negative() {
            if other.is_negative() {
                proof {
                    lemma_signs(x, y);
                }
                ratio_below(c, d, a, b)
            } else {
                proof {
                    lemma_signs(x, y);
                }
                true
            }
        } else {
            if other.is_negative() {
                proof {
                    lemma_signs(x, y);
                }
                false
            } else {
                proof {
                    lemma_signs(x, y);
                }
                ratio_below(a, b, c, d)
            }
        }
    }
}

/// The order of two numbers by their signs and magnitudes.
proof fn lemma_signs(x: Rational, y: Rational)
    requires
        x.den > 0,
        y.den > 0,
    ensures
        x.num < 0 && y.num < 0 ==> (below(x, y) <==> magnitude(y.num) * x.den < magnitude(x.num)
            * y.den),
        x.num < 0 && y.num >= 0 ==> below(x, y),
        x.num >= 0 && y.num < 0 ==> !below(x, y),
        x.num >= 0 && y.num >= 0 ==> (below(x, y) <==> magnitude(x.num) * y.den < magnitude(
            y.num,
        ) * x.den),
{
    let a = x.num;
    let b = x.den;
    let c = y.num;
    let d = y.den;
    if a < 0 && c < 0 {
        assert((a * d < c * b) == ((-c) * b < (-a) * d)) by (nonlinear_arith);
    } else if a < 0 {
        assert(a * d < c * b) by (nonlinear_arith)
            requires
                a < 0,
                c >= 0,
                b > 0,
                d > 0,
        ;
    } else if c < 0 {
        assert(a * d >= c * b) by (nonlinear_arith)
            requires
                a >= 0,
                c < 0,
                b > 0,
                d > 0,
        ;
    }
}

/// Two scalars stand equal in the order exactly when they are equal.
pub proof fn lemma_order_agrees_with_equality(a: Decimal, b: Decimal)
    requires
        a.wf(),
        b.wf(),
    ensures
        order_of(a@, b@) == Some(Ordering::Equal) <==> a == b,
{
    a.lemma_view();
    b.lemma_view();
    if let Some(x) = a@ {
        if let Some(y) = b@ {
            if !below(x, y) && !below(y, x) {
                lemma_normal_unique(x, y);
            }
        }
    }
}

impl PartialOrdSpecImpl for Decimal {
    open spec fn obeys_partial_cmp_spec() -> bool {
        true
    }

    open spec fn partial_cmp_spec(&self, other: &Decimal) -> Option<Ordering> {
        order_of(self@, other@)
    }
}

impl PartialOrd for Decimal {
    /// How the scalar stands to `other`.
    fn partial_cmp(&self, other: &Decimal) -> (r: Option<Ordering>) {
        if self.is_nan() || other.is_nan() {
            if self.is_nan() && other.is_nan() {
                Some(Ordering::Equal)
            } else {
                None
            }
        } else if self.is_below(other) {
            Some(Ordering::Less)
        } else if other.is_below(self) {
            Some(Ordering::Greater)
        } else {
            Some(Ordering::Equal)
        }
    }
}

} // verus!
