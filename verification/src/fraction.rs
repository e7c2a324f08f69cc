//! A ratio of two unsigned magnitudes, with a mark for "this ratio is
//! negative". It is exactly what it was made from: nothing is reduced, and the
//! denominator may be zero.

use crate::decimal::{signed, Decimal};
use crate::rational::{lowest_terms, Rational};
use vstd::prelude::*;

verus! {

/// An exact ratio of two magnitudes and a sign.
#[derive(Clone, Copy, Debug, PartialEq, Eq, Structural)]
pub struct Fraction {
    negative: bool,
    num: u128,
    den: u128,
}

impl View for Fraction {
    type V = Rational;

    /// The ratio as it was given, the sign on the numerator.
    closed spec fn view(&self) -> Rational {
        Rational { num: signed(self.negative, self.num as int), den: self.den as int }
    }
}

impl Fraction {
    /// The ratio `num / den`.
    pub fn new(num: u128, den: u128) -> (r: Fraction)
        ensures
            r@ == (Rational { num: num as int, den: den as int }),
    {
        Fraction { negative: false, num, den }
    }

    /// The negative ratio `-(num / den)`.
    pub fn new_neg(num: u128, den: u128) -> (r: Fraction)
        ensures
            r@ == (Rational { num: -(num as int), den: den as int }),
    {
        Fraction { negative: true, num, den }
    }

    /// The scalar of the same value; no number where the denominator is zero.
    pub fn to_decimal(self) -> (r: Decimal)
        ensures
            r@ == if self@.den == 0 {
                None
            } else {
                Some(lowest_terms(self@.num, self@.den))
            },
    {
        Decimal::from_parts(self.negative, self.num, self.den)
    }
}

} // verus!
