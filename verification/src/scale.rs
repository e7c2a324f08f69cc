//! The one unit that suits the magnitude of a duration, for a compact text
//! in a single unit.

use crate::decimal::Decimal;
use crate::duration::{Duration, TimeUnit};
use crate::rational::{magnitude, product, Rational};
use vstd::arithmetic::div_mod::lemma_fundamental_div_mod;
use vstd::prelude::*;

verus! {

/// The magnitude of the ratio `x` is below `n / d`, for positive `d`.
pub open spec fn magnitude_below(x: Rational, n: int, d: int) -> bool {
    magnitude(x.num) * d < n * x.den
}

/// The unit in which seconds `v` are best read: nanoseconds below ten
/// microseconds, milliseconds below ten milliseconds, seconds below three
/// minutes, minutes below an hour, hours below a day, and days from there
/// on. What is no number is given in days.
pub open spec fn suited_unit(v: Option<Rational>) -> TimeUnit {
    match v {
        None => TimeUnit::Day,
        Some(x) => if magnitude_below(x, 1, 100000) {
            TimeUnit::Nanosecond
        } else if magnitude_below(x, 1, 100) {
            TimeUnit::Millisecond
        } else if magnitude_below(x, 180, 1) {
            TimeUnit::Second
        } else if magnitude_below(x, 3600, 1) {
            TimeUnit::Minute
        } else if magnitude_below(x, 86400, 1) {
            TimeUnit::Hour
        } else {
            TimeUnit::Day
        },
    }
}

/// The name of a unit as it is written behind a number.
pub open spec fn unit_name(unit: TimeUnit) -> Seq<char> {
    match unit {
        TimeUnit::Day => "days"@,
        TimeUnit::Hour => "h"@,
        TimeUnit::Minute => "min"@,
        TimeUnit::Second => "s"@,
        TimeUnit::Millisecond => "ms"@,
        TimeUnit::Nanosecond => "ns"@,
    }
}

/// Whether `num / den` is below one in `parts`.
fn below_one_in(num: u128, den: u128, parts: u128) -> (b: bool)
    requires
        den > 0,
        parts > 0,
    ensures
        b == (num * parts < den),
{
    let most: u128 = (den - 1) / parts;
    proof {
        lemma_fundamental_div_mod((den - 1) as int, parts as int);
        let rest = (den - 1) % (parts as int);
        assert(0 <= rest < parts);
        assert((num <= most) == (num * parts < den)) by (nonlinear_arith)
            requires
                den - 1 == parts * most + rest,
                0 <= rest < parts,
                parts > 0,
        ;
    }
    num <= most
}

/// Whether `num / den` is below the whole number `bound`.
fn below_whole(num: u128, den: u128, bound: u128) -> (b: bool)
    requires
        den > 0,
    ensures
        b == (num * 1 < bound * den),
{
    let whole: u128 = num / den;
    proof {
        lemma_fundamental_div_mod(num as int, den as int);
        let rest = num % den;
        assert((whole < bound) == (num < bound * den)) by (nonlinear_arith)
            requires
                num == den * whole + rest,
                0 <= rest < den,
        ;
    }
    whole < bound
}

impl TimeUnit {
    /// The name of the unit as it is written behind a number.
    pub fn name(self) -> (r: &'static str)
        ensures
            r@ == unit_name(self),
    {
        match self {
            TimeUnit::Day => "days",
            TimeUnit::Hour => "h",
            TimeUnit::Minute => "min",
            TimeUnit::Second => "s",
            TimeUnit::Millisecond => "ms",
            TimeUnit::Nanosecond => "ns",
        }
    }
}

impl Duration {
    /// The unit that suits the magnitude of the duration.
    pub fn suited_unit(&self) -> (unit: TimeUnit)
        ensures
            unit == suited_unit(self@),
    {
        let value: Decimal = self.seconds();
        if value.is_nan() {
            return TimeUnit::Day;
        }
        let num: u128 = value.numer();
        let den: u128 = value.denom();
        if below_one_in(num, den, 100000) {
            TimeUnit::Nanosecond
        } else if below_one_in(num, den, 100) {
            TimeUnit::Millisecond
        } else if below_whole(num, den, 180) {
            TimeUnit::Second
        } else if below_whole(num, den, 3600) {
            TimeUnit::Minute
        } else if below_whole(num, den, 86400) {
            TimeUnit::Hour
        } else {
            TimeUnit::Day
        }
    }

    /// The duration counted in the unit that suits its magnitude, and that
    /// unit.
    pub fn in_suited_unit(&self) -> (r: (Decimal, TimeUnit))
        ensures
            r.1 == suited_unit(self@),
            r.0@ == product(self@, Some(r.1.per_second())),
    {
        let unit = self.suited_unit();
        (self.in_unit(unit), unit)
    }
}

} // verus!
