//! Durations and the units that measure them.
//!
//! A duration is one signed scalar, always in seconds. A unit is used while a
//! duration is made or read, and is not kept.

use crate::decimal::Decimal;
use crate::fraction::Fraction;
use crate::rational::{
    difference, lemma_product_one, lemma_quotient_of_one, lemma_whole_normal, lowest_terms,
    magnitude, negation, product, sum, Rational,
};
use vstd::prelude::*;
use vstd::std_specs::ops::{AddSpecImpl, MulSpec, MulSpecImpl, NegSpecImpl, SubSpecImpl};

verus! {

/// The granularities in which a duration can be given or read.
#[derive(Clone, Copy, Debug, PartialEq, Eq, Structural)]
pub enum TimeUnit {
    Day,
    Hour,
    Minute,
    Second,
    Millisecond,
    Nanosecond,
}

/// Why a duration could not be made.
#[derive(Clone, Copy, Debug, PartialEq, Eq, Structural)]
pub enum DurationError {
    /// A ratio was asked for with a denominator of zero.
    InvalidDenominator,
}

/// An elapsed time in seconds, exact, with a sign and without a reference
/// point.
#[derive(Clone, Copy, Debug, PartialEq, Eq, Structural)]
pub struct Duration(Decimal);

impl TimeUnit {
    /// How many seconds one of this unit lasts.
    pub open spec fn seconds_per(self) -> Rational {
        match self {
            TimeUnit::Day => Rational::whole(86400),
            TimeUnit::Hour => Rational::whole(3600),
            TimeUnit::Minute => Rational::whole(60),
            TimeUnit::Second => Rational::whole(1),
            TimeUnit::Millisecond => Rational { num: 1, den: 1000 },
            TimeUnit::Nanosecond => Rational { num: 1, den: 1000000000 },
        }
    }

    /// How many of this unit last one second: one divided by `seconds_per`.
    pub open spec fn per_second(self) -> Rational {
        self.seconds_per().reciprocal()
    }

    /// Both factors of a unit are in lowest terms and fit.
    pub proof fn lemma_factors(self)
        ensures
            self.seconds_per().normal(),
            self.seconds_per().fits(),
            self.seconds_per().num > 0,
            self.per_second().normal(),
            self.per_second().fits(),
    {
        lemma_whole_normal(self.seconds_per().num);
        crate::numtheory::lemma_gcd_one(self.seconds_per().den as nat);
        crate::rational::lemma_reciprocal_normal(self.seconds_per());
    }

    /// One of a unit lasts the seconds of that unit.
    pub proof fn lemma_one_of(self)
        ensures
            one_of(self) == Some(self.seconds_per()),
    {
        self.lemma_factors();
        lemma_product_one(self.seconds_per());
    }

    /// The factor that turns a count of this unit into seconds.
    pub fn in_seconds(self) -> (r: Decimal)
        ensures
            r@ == Some(self.seconds_per()),
    {
        proof {
            self.lemma_factors();
            crate::rational::lemma_normal_is_lowest(self.seconds_per());
        }
        match self {
            TimeUnit::Day => Decimal::from(86400u32),
            TimeUnit::Hour => Decimal::from(3600u32),
            TimeUnit::Minute => Decimal::from(60u32),
            TimeUnit::Second => Decimal::from(1u32),
            TimeUnit::Millisecond => Decimal::from_parts(false, 1, 1000),
            TimeUnit::Nanosecond => Decimal::from_parts(false, 1, 1000000000),
        }
    }

    /// The factor that turns seconds into a count of this unit: one divided
    /// by `in_seconds`.
    pub fn from_seconds(self) -> (r: Decimal)
        ensures
            r@ == Some(self.per_second()),
    {
        proof {
            self.lemma_factors();
            lemma_quotient_of_one(self.seconds_per());
        }
        Decimal::from(1u32) / self.in_seconds()
    }
}

impl View for Duration {
    type V = Option<Rational>;

    /// The seconds that the duration lasts, or `None` where they are no
    /// number.
    closed spec fn view(&self) -> Option<Rational> {
        self.0@
    }
}

/// What `value` of `unit` lasts in seconds.
pub open spec fn in_seconds_of(value: Option<Rational>, unit: TimeUnit) -> Option<Rational> {
    product(value, Some(unit.seconds_per()))
}

/// The ratio `n / d` of two integers, `d` not zero, in lowest terms: negative
/// where exactly one of the two is.
pub open spec fn ratio_of(n: int, d: int) -> Rational {
    lowest_terms(if d > 0 { n } else { -n }, magnitude(d) as int)
}

/// What one of `unit` lasts in seconds.
pub open spec fn one_of(unit: TimeUnit) -> Option<Rational> {
    in_seconds_of(Some(Rational::whole(1)), unit)
}

impl Duration {
    /// The scalar held is well formed.
    #[verifier::type_invariant]
    pub closed spec fn wf(self) -> bool {
        self.0.wf()
    }

    /// The duration of `v` seconds, for a `v` that a scalar can hold.
    pub closed spec fn holding(v: Option<Rational>) -> Duration {
        Duration(Decimal::holding(v))
    }

    /// A well-formed duration holds seconds in lowest terms that fit, and is
    /// the only duration that holds them.
    pub proof fn lemma_view(self)
        requires
            self.wf(),
        ensures
            self@ matches Some(r) ==> r.normal() && r.fits(),
            Duration::holding(self@) == self,
    {
        self.0.lemma_view();
    }

    /// What `holding` gives for seconds in lowest terms that fit is well
    /// formed and holds them.
    pub proof fn lemma_holding(v: Option<Rational>)
        requires
            v matches Some(r) ==> r.normal() && r.fits(),
        ensures
            Duration::holding(v).wf(),
            Duration::holding(v)@ == v,
    {
        Decimal::lemma_holding(v);
    }

    /// The duration of `value` seconds.
    fn sealed(value: Decimal) -> (r: Duration)
        ensures
            r@ == value@,
            r == Duration::holding(value@),
    {
        proof {
            use_type_invariant(value);
            value.lemma_view();
        }
        Duration(value)
    }

    /// `days` days.
    pub fn from_days(days: Decimal) -> (r: Duration)
        ensures
            r@ == in_seconds_of(days@, TimeUnit::Day),
    {
        Duration::sealed(days * TimeUnit::Day.in_seconds())
    }

    /// `hours` hours.
    pub fn from_hours(hours: Decimal) -> (r: Duration)
        ensures
            r@ == in_seconds_of(hours@, TimeUnit::Hour),
    {
        Duration::sealed(hours * TimeUnit::Hour.in_seconds())
    }

    /// `minutes` minutes.
    pub fn from_minutes(minutes: Decimal) -> (r: Duration)
        ensures
            r@ == in_seconds_of(minutes@, TimeUnit::Minute),
    {
        Duration::sealed(minutes * TimeUnit::Minute.in_seconds())
    }

    /// `seconds` seconds, kept as they are.
    pub fn from_seconds(seconds: Decimal) -> (r: Duration)
        ensures
            r@ == seconds@,
            r@ == in_seconds_of(seconds@, TimeUnit::Second),
    {
        proof {
            use_type_invariant(seconds);
            seconds.lemma_view();
            if let Some(x) = seconds@ {
                lemma_product_one(x);
            }
        }
        Duration::sealed(seconds)
    }

    /// `ms` milliseconds.
    pub fn from_millseconds(ms: Decimal) -> (r: Duration)
        ensures
            r@ == in_seconds_of(ms@, TimeUnit::Millisecond),
    {
        Duration::sealed(ms * TimeUnit::Millisecond.in_seconds())
    }

    /// `ns` nanoseconds.
    pub fn from_nanoseconds(ns: Decimal) -> (r: Duration)
        ensures
            r@ == in_seconds_of(ns@, TimeUnit::Nanosecond),
    {
        Duration::sealed(ns * TimeUnit::Nanosecond.in_seconds())
    }

    /// `value` of `unit`.
    pub fn from_unit(value: Decimal, unit: TimeUnit) -> (r: Duration)
        ensures
            r@ == in_seconds_of(value@, unit),
    {
        match unit {
            TimeUnit::Day => Duration::from_days(value),
            TimeUnit::Hour => Duration::from_hours(value),
            TimeUnit::Minute => Duration::from_minutes(value),
            TimeUnit::Second => Duration::from_seconds(value),
            TimeUnit::Millisecond => Duration::from_millseconds(value),
            TimeUnit::Nanosecond => Duration::from_nanoseconds(value),
        }
    }

    /// The exact ratio `num / denom` of `unit`. The ratio is negative where
    /// exactly one of the two is; a denominator of zero is refused.
    pub fn from_fraction(num: i64, denom: i64, unit: TimeUnit) -> (r: Result<Duration, DurationError>)
        ensures
            denom == 0 ==> r == Err::<Duration, DurationError>(DurationError::InvalidDenominator),
            denom != 0 ==> (r matches Ok(d) && d@ == in_seconds_of(
                Some(ratio_of(num as int, denom as int)),
                unit,
            )),
    {
        if denom == 0 {
            return Err(DurationError::InvalidDenominator);
        }
        let num_u: u128 = magnitude_of(num);
        let denom_u: u128 = magnitude_of(denom);
        let fraction = if (num < 0 && denom < 0) || (num > 0 && denom > 0) {
            Fraction::new(num_u, denom_u)
        } else {
            Fraction::new_neg(num_u, denom_u)
        };
        Ok(Duration::sealed(Decimal::from_fraction(fraction) * unit.in_seconds()))
    }

    /// The duration counted in `unit`.
    pub fn in_unit(&self, unit: TimeUnit) -> (r: Decimal)
        ensures
            r@ == product(self@, Some(unit.per_second())),
    {
        self.0 * unit.from_seconds()
    }

    /// The duration in seconds, as it is held.
    pub fn seconds(&self) -> (r: Decimal)
        ensures
            r@ == self@,
    {
        self.0
    }
}

/// The distance of `n` from zero.
pub fn magnitude_of(n: i64) -> (m: u128)
    ensures
        m == magnitude(n as int),
{
    let wide: i128 = n as i128;
    if wide < 0 {
        (-wide) as u128
    } else {
        wide as u128
    }
}

impl NegSpecImpl for Duration {
    open spec fn obeys_neg_spec() -> bool {
        true
    }

    open spec fn neg_req(self) -> bool {
        true
    }

    closed spec fn neg_spec(self) -> Duration {
        Duration::holding(negation(self@))
    }
}

impl core::ops::Neg for Duration {
    type Output = Duration;

    /// The duration of the same length in the other direction.
    fn neg(self) -> (r: Duration)
        ensures
            r@ == negation(self@),
    {
        Duration::sealed(core::ops::Neg::neg(self.0))
    }
}

impl AddSpecImpl for Duration {
    open spec fn obeys_add_spec() -> bool {
        true
    }

    open spec fn add_req(self, rhs: Duration) -> bool {
        true
    }

    closed spec fn add_spec(self, rhs: Duration) -> Duration {
        Duration::holding(sum(self@, rhs@))
    }
}

impl core::ops::Add for Duration {
    type Output = Duration;

    /// The sum of the two durations.
    fn add(self, rhs: Duration) -> (r: Duration)
        ensures
            r@ == sum(self@, rhs@),
    {
        Duration::sealed(self.0 + rhs.0)
    }
}

impl core::ops::AddAssign for Duration {
    /// Puts the sum of the two durations in place of the first.
    fn add_assign(&mut self, rhs: Duration)
        ensures
            final(self)@ == sum(old(self)@, rhs@),
    {
        *self = *self + rhs;
    }
}

impl SubSpecImpl for Duration {
    open spec fn obeys_sub_spec() -> bool {
        true
    }

    open spec fn sub_req(self, rhs: Duration) -> bool {
        true
    }

    closed spec fn sub_spec(self, rhs: Duration) -> Duration {
        Duration::holding(difference(self@, rhs@))
    }
}

impl core::ops::Sub for Duration {
    type Output = Duration;

    /// The first duration less the second.
    fn sub(self, rhs: Duration) -> (r: Duration)
        ensures
            r@ == difference(self@, rhs@),
    {
        Duration::sealed(self.0 - rhs.0)
    }
}

impl core::ops::SubAssign for Duration {
    /// Puts the first duration less the second in place of the first.
    fn sub_assign(&mut self, rhs: Duration)
        ensures
            final(self)@ == difference(old(self)@, rhs@),
    {
        *self = *self - rhs;
    }
}

impl AddSpecImpl<TimeUnit> for Duration {
    open spec fn obeys_add_spec() -> bool {
        true
    }

    open spec fn add_req(self, rhs: TimeUnit) -> bool {
        true
    }

    closed spec fn add_spec(self, rhs: TimeUnit) -> Duration {
        Duration::holding(sum(self@, one_of(rhs)))
    }
}

impl core::ops::Add<TimeUnit> for Duration {
    type Output = Duration;

    /// The duration and one of `rhs` more.
    fn add(self, rhs: TimeUnit) -> (r: Duration)
        ensures
            r@ == sum(self@, one_of(rhs)),
    {
        self + rhs * 1i32
    }
}

impl core::ops::AddAssign<TimeUnit> for Duration {
    /// Lengthens the duration by one of `rhs`.
    fn add_assign(&mut self, rhs: TimeUnit)
        ensures
            final(self)@ == sum(old(self)@, one_of(rhs)),
    {
        *self = *self + rhs * 1i32;
    }
}

impl SubSpecImpl<TimeUnit> for Duration {
    open spec fn obeys_sub_spec() -> bool {
        true
    }

    open spec fn sub_req(self, rhs: TimeUnit) -> bool {
        true
    }

    closed spec fn sub_spec(self, rhs: TimeUnit) -> Duration {
        Duration::holding(difference(self@, one_of(rhs)))
    }
}

impl core::ops::Sub<TimeUnit> for Duration {
    type Output = Duration;

    /// The duration less one of `rhs`.
    fn sub(self, rhs: TimeUnit) -> (r: Duration)
        ensures
            r@ == difference(self@, one_of(rhs)),
    {
        self - rhs * 1i32
    }
}

impl core::ops::SubAssign<TimeUnit> for Duration {
    /// Shortens the duration by one of `rhs`.
    fn sub_assign(&mut self, rhs: TimeUnit)
        ensures
            final(self)@ == difference(old(self)@, one_of(rhs)),
    {
        *self = *self - rhs * 1i32;
    }
}

impl AddSpecImpl for TimeUnit {
    open spec fn obeys_add_spec() -> bool {
        true
    }

    open spec fn add_req(self, rhs: TimeUnit) -> bool {
        true
    }

    closed spec fn add_spec(self, rhs: TimeUnit) -> Duration {
        Duration::holding(sum(one_of(self), one_of(rhs)))
    }
}

impl core::ops::Add for TimeUnit {
    type Output = Duration;

    /// One of the first unit and one of the second.
    fn add(self, rhs: TimeUnit) -> (r: Duration)
        ensures
            r@ == sum(one_of(self), one_of(rhs)),
    {
        self * 1i32 + rhs * 1i32
    }
}

impl SubSpecImpl for TimeUnit {
    open spec fn obeys_sub_spec() -> bool {
        true
    }

    open spec fn sub_req(self, rhs: TimeUnit) -> bool {
        true
    }

    closed spec fn sub_spec(self, rhs: TimeUnit) -> Duration {
        Duration::holding(difference(one_of(self), one_of(rhs)))
    }
}

impl core::ops::Sub for TimeUnit {
    type Output = Duration;

    /// One of the first unit less one of the second.
    fn sub(self, rhs: TimeUnit) -> (r: Duration)
        ensures
            r@ == difference(one_of(self), one_of(rhs)),
    {
        self * 1i32 - rhs * 1i32
    }
}

impl MulSpecImpl<u8> for TimeUnit {
    open spec fn obeys_mul_spec() -> bool {
        true
    }

    open spec fn mul_req(self, q: u8) -> bool {
        true
    }

    closed spec fn mul_spec(self, q: u8) -> Duration {
        Duration::holding(in_seconds_of(Some(Rational::whole(q as int)), self))
    }
}

impl core::ops::Mul<u8> for TimeUnit {
    type Output = Duration;

    /// `q` of this unit.
    fn mul(self, q: u8) -> (r: Duration)
        ensures
            r@ == in_seconds_of(Some(Rational::whole(q as int)), self),
    {
        let r = Duration::from_unit(Decimal::from(q), self);
        proof {
            use_type_invariant(r);
            r.lemma_view();
        }
        r
    }
}

impl MulSpecImpl<i8> for TimeUnit {
    open spec fn obeys_mul_spec() -> bool {
        true
    }

    open spec fn mul_req(self, q: i8) -> bool {
        true
    }

    closed spec fn mul_spec(self, q: i8) -> Duration {
        Duration::holding(in_seconds_of(Some(Rational::whole(q as int)), self))
    }
}

impl core::ops::Mul<i8> for TimeUnit {
    type Output = Duration;

    /// `q` of this unit.
    fn mul(self, q: i8) -> (r: Duration)
        ensures
            r@ == in_seconds_of(Some(Rational::whole(q as int)), self),
    {
        let r = Duration::from_unit(Decimal::from(q), self);
        proof {
            use_type_invariant(r);
            r.lemma_view();
        }
        r
    }
}

impl MulSpecImpl<u16> for TimeUnit {
    open spec fn obeys_mul_spec() -> bool {
        true
    }

    open spec fn mul_req(self, q: u16) -> bool {
        true
    }

    closed spec fn mul_spec(self, q: u16) -> Duration {
        Duration::holding(in_seconds_of(Some(Rational::whole(q as int)), self))
    }
}

impl core::ops::Mul<u16> for TimeUnit {
    type Output = Duration;

    /// `q` of this unit.
    fn mul(self, q: u16) -> (r: Duration)
        ensures
            r@ == in_seconds_of(Some(Rational::whole(q as int)), self),
    {
        let r = Duration::from_unit(Decimal::from(q), self);
        proof {
            use_type_invariant(r);
            r.lemma_view();
        }
        r
    }
}

impl MulSpecImpl<i16> for TimeUnit {
    open spec fn obeys_mul_spec() -> bool {
        true
    }

    open spec fn mul_req(self, q: i16) -> bool {
        true
    }

    closed spec fn mul_spec(self, q: i16) -> Duration {
        Duration::holding(in_seconds_of(Some(Rational::whole(q as int)), self))
    }
}

impl core::ops::Mul<i16> for TimeUnit {
    type Output = Duration;

    /// `q` of this unit.
    fn mul(self, q: i16) -> (r: Duration)
        ensures
            r@ == in_seconds_of(Some(Rational::whole(q as int)), self),
    {
        let r = Duration::from_unit(Decimal::from(q), self);
        proof {
            use_type_invariant(r);
            r.lemma_view();
        }
        r
    }
}

impl MulSpecImpl<u32> for TimeUnit {
    open spec fn obeys_mul_spec() -> bool {
        true
    }

    open spec fn mul_req(self, q: u32) -> bool {
        true
    }

    closed spec fn mul_spec(self, q: u32) -> Duration {
        Duration::holding(in_seconds_of(Some(Rational::whole(q as int)), self))
    }
}

impl core::ops::Mul<u32> for TimeUnit {
    type Output = Duration;

    /// `q` of this unit.
    fn mul(self, q: u32) -> (r: Duration)
        ensures
            r@ == in_seconds_of(Some(Rational::whole(q as int)), self),
    {
        let r = Duration::from_unit(Decimal::from(q), self);
        proof {
            use_type_invariant(r);
            r.lemma_view();
        }
        r
    }
}

impl MulSpecImpl<i32> for TimeUnit {
    open spec fn obeys_mul_spec() -> bool {
        true
    }

    open spec fn mul_req(self, q: i32) -> bool {
        true
    }

    closed spec fn mul_spec(self, q: i32) -> Duration {
        Duration::holding(in_seconds_of(Some(Rational::whole(q as int)), self))
    }
}

impl core::ops::Mul<i32> for TimeUnit {
    type Output = Duration;

    /// `q` of this unit.
    fn mul(self, q: i32) -> (r: Duration)
        ensures
            r@ == in_seconds_of(Some(Rational::whole(q as int)), self),
    {
        let r = Duration::from_unit(Decimal::from(q), self);
        proof {
            use_type_invariant(r);
            r.lemma_view();
        }
        r
    }
}

impl MulSpecImpl<u64> for TimeUnit {
    open spec fn obeys_mul_spec() -> bool {
        true
    }

    open spec fn mul_req(self, q: u64) -> bool {
        true
    }

    closed spec fn mul_spec(self, q: u64) -> Duration {
        Duration::holding(in_seconds_of(Some(Rational::whole(q as int)), self))
    }
}

impl core::ops::Mul<u64> for TimeUnit {
    type Output = Duration;

    /// `q` of this unit.
    fn mul(self, q: u64) -> (r: Duration)
        ensures
            r@ == in_seconds_of(Some(Rational::whole(q as int)), self),
    {
        let r = Duration::from_unit(Decimal::from(q), self);
        proof {
            use_type_invariant(r);
            r.lemma_view();
        }
        r
    }
}

impl MulSpecImpl<i64> for TimeUnit {
    open spec fn obeys_mul_spec() -> bool {
        true
    }

    open spec fn mul_req(self, q: i64) -> bool {
        true
    }

    closed spec fn mul_spec(self, q: i64) -> Duration {
        Duration::holding(in_seconds_of(Some(Rational::whole(q as int)), self))
    }
}

impl core::ops::Mul<i64> for TimeUnit {
    type Output = Duration;

    /// `q` of this unit.
    fn mul(self, q: i64) -> (r: Duration)
        ensures
            r@ == in_seconds_of(Some(Rational::whole(q as int)), self),
    {
        let r = Duration::from_unit(Decimal::from(q), self);
        proof {
            use_type_invariant(r);
            r.lemma_view();
        }
        r
    }
}

impl MulSpecImpl<u128> for TimeUnit {
    open spec fn obeys_mul_spec() -> bool {
        true
    }

    open spec fn mul_req(self, q: u128) -> bool {
        true
    }

    closed spec fn mul_spec(self, q: u128) -> Duration {
        Duration::holding(in_seconds_of(Some(Rational::whole(q as int)), self))
    }
}

impl core::ops::Mul<u128> for TimeUnit {
    type Output = Duration;

    /// `q` of this unit.
    fn mul(self, q: u128) -> (r: Duration)
        ensures
            r@ == in_seconds_of(Some(Rational::whole(q as int)), self),
    {
        let r = Duration::from_unit(Decimal::from(q), self);
        proof {
            use_type_invariant(r);
            r.lemma_view();
        }
        r
    }
}

impl MulSpecImpl<Decimal> for TimeUnit {
    open spec fn obeys_mul_spec() -> bool {
        true
    }

    open spec fn mul_req(self, q: Decimal) -> bool {
        true
    }

    closed spec fn mul_spec(self, q: Decimal) -> Duration {
        Duration::holding(in_seconds_of(q@, self))
    }
}

impl core::ops::Mul<Decimal> for TimeUnit {
    type Output = Duration;

    /// `q` of this unit.
    fn mul(self, q: Decimal) -> (r: Duration)
        ensures
            r@ == in_seconds_of(q@, self),
    {
        let r = Duration::from_unit(q, self);
        proof {
            use_type_invariant(r);
            r.lemma_view();
        }
        r
    }
}

/// A count of a unit is the same duration whatever kind of number carries
/// the count: a scalar, or an integer of any width, signed or not.
pub proof fn lemma_kind_of_number_is_irrelevant(
    unit: TimeUnit,
    q: Decimal,
    a: u8,
    b: i8,
    c: u16,
    d: i16,
    e: u32,
    f: i32,
    g: u64,
    h: i64,
    i: u128,
)
    requires
        q@ == Some(Rational::whole(a as int)),
        a == b && a == c && a == d && a == e && a == f && a == g && a == h && a == i,
    ensures
        <TimeUnit as MulSpec<u8>>::mul_spec(unit, a) == <TimeUnit as MulSpec<Decimal>>::mul_spec(unit, q),
        <TimeUnit as MulSpec<u8>>::mul_spec(unit, a) == <TimeUnit as MulSpec<i8>>::mul_spec(unit, b),
        <TimeUnit as MulSpec<u8>>::mul_spec(unit, a) == <TimeUnit as MulSpec<u16>>::mul_spec(unit, c),
        <TimeUnit as MulSpec<u8>>::mul_spec(unit, a) == <TimeUnit as MulSpec<i16>>::mul_spec(unit, d),
        <TimeUnit as MulSpec<u8>>::mul_spec(unit, a) == <TimeUnit as MulSpec<u32>>::mul_spec(unit, e),
        <TimeUnit as MulSpec<u8>>::mul_spec(unit, a) == <TimeUnit as MulSpec<i32>>::mul_spec(unit, f),
        <TimeUnit as MulSpec<u8>>::mul_spec(unit, a) == <TimeUnit as MulSpec<u64>>::mul_spec(unit, g),
        <TimeUnit as MulSpec<u8>>::mul_spec(unit, a) == <TimeUnit as MulSpec<i64>>::mul_spec(unit, h),
        <TimeUnit as MulSpec<u8>>::mul_spec(unit, a) == <TimeUnit as MulSpec<u128>>::mul_spec(unit, i),
{
}

} // verus!
