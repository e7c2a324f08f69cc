//! The text of a duration: days, hours, minutes, seconds, milliseconds and
//! nanoseconds, of which only those needed are written, behind one sign.

use crate::breakdown::{breakdown, floor_in, Breakdown};
use crate::decimal::Decimal;
use crate::duration::{Duration, TimeUnit};
use crate::rational::{magnitude, Rational};
use crate::text::{next_six_digits, next_three_digits, nat_text, push_fraction, push_nat, ratio_text, FRACTION_DIGITS};
use vstd::arithmetic::div_mod::{
    lemma_div_denominator, lemma_fundamental_div_mod, lemma_fundamental_div_mod_converse,
};
use vstd::prelude::*;
use vstd::string::StringExecFns;

verus! {

/// A whole part with the name of its unit behind it.
pub open spec fn piece(value: int, unit: Seq<char>) -> Seq<char> {
    nat_text(value as nat) + unit
}

/// Whether a part coarser than seconds is written.
pub open spec fn coarse_shown(b: Breakdown) -> bool {
    b.days != 0 || b.hours != 0 || b.minutes != 0
}

/// The parts coarser than seconds: none before the first that is not zero,
/// and every one from there on.
pub open spec fn coarse_text(b: Breakdown) -> Seq<char> {
    let days = if b.days != 0 {
        piece(b.days, " days "@)
    } else {
        Seq::<char>::empty()
    };
    let hours = if b.days != 0 || b.hours != 0 {
        piece(b.hours, " h "@)
    } else {
        Seq::<char>::empty()
    };
    let minutes = if coarse_shown(b) {
        piece(b.minutes, " min "@)
    } else {
        Seq::<char>::empty()
    };
    days + hours + minutes
}

/// The seconds and what is finer. Without milliseconds and nanoseconds the
/// seconds end the text. Otherwise the seconds are written if they are not
/// zero or something coarser was, then the milliseconds, and the nanoseconds
/// only where there are any.
pub open spec fn fine_text(b: Breakdown) -> Seq<char> {
    if b.millis == 0 && b.nanos.num == 0 {
        piece(b.seconds, " s"@)
    } else {
        let seconds_shown = coarse_shown(b) || b.seconds != 0;
        let seconds = if seconds_shown {
            piece(b.seconds, " s "@)
        } else {
            Seq::<char>::empty()
        };
        if b.nanos.num == 0 {
            seconds + piece(b.millis, " ms"@)
        } else {
            let millis = if seconds_shown || b.millis != 0 {
                piece(b.millis, " ms "@)
            } else {
                Seq::<char>::empty()
            };
            seconds + millis + ratio_text(b.nanos.num as nat, b.nanos.den as nat) + " ns"@
        }
    }
}

/// The sign in front of the text: a minus for what is negative.
pub open spec fn sign_text(negative: bool) -> Seq<char> {
    if negative {
        "-"@
    } else {
        Seq::<char>::empty()
    }
}

/// The text of a duration of `v` seconds: the sign once, then the parts of
/// the magnitude. What is no number is written `NaN`.
pub open spec fn duration_text(v: Option<Rational>) -> Seq<char> {
    match v {
        None => "NaN"@,
        Some(x) => {
            let b = breakdown(x.absolute());
            sign_text(x.num < 0) + coarse_text(b) + fine_text(b)
        },
    }
}

/// The text of a scalar: the sign, the whole part, and behind a point the
/// digits of the rest. What is no number is written `NaN`.
pub open spec fn decimal_text(v: Option<Rational>) -> Seq<char> {
    match v {
        None => "NaN"@,
        Some(x) => sign_text(x.num < 0) + ratio_text(magnitude(x.num), x.den as nat),
    }
}

/// Appends a whole part and the name of its unit.
fn push_piece(s: &mut String, value: u128, unit: &str)
    ensures
        final(s)@ == old(s)@ + piece(value as int, unit@),
{
    let ghost before = s@;
    push_nat(s, value);
    s.append(unit);
    assert(s@ =~= before + piece(value as int, unit@));
}

/// The parts of `n / den` seconds, computed without leaving 128 bits.
struct Parts {
    days: u128,
    hours: u128,
    minutes: u128,
    seconds: u128,
    millis: u16,
    /// What the milliseconds leave of `1000 * (n % den)`: the nanoseconds
    /// are `1000000 * rest / den`.
    rest: u128,
    den: u128,
}

impl View for Parts {
    type V = Breakdown;

    closed spec fn view(&self) -> Breakdown {
        Breakdown {
            days: self.days as int,
            hours: self.hours as int,
            minutes: self.minutes as int,
            seconds: self.seconds as int,
            millis: self.millis as int,
            nanos: Rational { num: 1000000 * self.rest, den: self.den as int },
        }
    }
}

/// Takes `n / d` seconds apart.
fn parts_of(n: u128, d: u128) -> (p: Parts)
    requires
        d > 0,
    ensures
        p@ == breakdown(Rational { num: n as int, den: d as int }),
        p.rest < p.den,
{
    let whole: u128 = n / d;
    let left: u128 = n % d;
    let days: u128 = whole / 86400;
    let hours: u128 = whole / 3600;
    let minutes: u128 = whole / 60;
    let (millis, rest) = next_three_digits(left, d);
    proof {
        let x = Rational { num: n as int, den: d as int };
        lemma_div_denominator(n as int, d as int, 86400);
        lemma_div_denominator(n as int, d as int, 3600);
        lemma_div_denominator(n as int, d as int, 60);
        assert(n * 1 == n && d * 1 == d);
        assert(floor_in(x, TimeUnit::Day) == days);
        assert(floor_in(x, TimeUnit::Hour) == hours);
        assert(floor_in(x, TimeUnit::Minute) == minutes);
        assert(floor_in(x, TimeUnit::Second) == whole);
        lemma_fundamental_div_mod(n as int, d as int);
        assert(n * 1000 == (whole * 1000 + millis) * d + rest) by (nonlinear_arith)
            requires
                n == d * whole + left,
                1000 * left == millis * d + rest,
        ;
        lemma_fundamental_div_mod_converse(
            n * 1000,
            d as int,
            whole * 1000 + millis,
            rest as int,
        );
        assert(floor_in(x, TimeUnit::Millisecond) == whole * 1000 + millis);
        assert(n * 1000000000 - (whole * 1000 + millis) * 1000000 * d == 1000000 * rest)
            by (nonlinear_arith)
            requires
                n * 1000 == (whole * 1000 + millis) * d + rest,
        ;
        lemma_div_denominator(whole as int, 3600, 24);
        lemma_div_denominator(whole as int, 60, 60);
        lemma_fundamental_div_mod(hours as int, 24);
        lemma_fundamental_div_mod(minutes as int, 60);
        lemma_fundamental_div_mod(whole as int, 60);
    }
    Parts {
        days,
        hours: hours - days * 24,
        minutes: minutes - hours * 60,
        seconds: whole - minutes * 60,
        millis,
        rest,
        den: d,
    }
}

/// Appends the parts coarser than seconds, and says whether there were any.
fn push_coarse(s: &mut String, p: &Parts) -> (started: bool)
    ensures
        final(s)@ == old(s)@ + coarse_text(p@),
        started == coarse_shown(p@),
{
    let ghost before = s@;
    let mut started = false;
    if p.days != 0 {
        push_piece(s, p.days, " days ");
        started = true;
    }
    if p.hours != 0 || started {
        push_piece(s, p.hours, " h ");
        started = true;
    }
    if p.minutes != 0 || started {
        push_piece(s, p.minutes, " min ");
        started = true;
    }
    assert(s@ =~= before + coarse_text(p@));
    started
}

/// Appends the nanoseconds and the name of their unit.
fn push_nanos(s: &mut String, p: &Parts)
    requires
        p.rest < p.den,
    ensures
        final(s)@ == old(s)@ + ratio_text(p@.nanos.num as nat, p@.nanos.den as nat) + " ns"@,
{
    let ghost before = s@;
    let (nanos, behind) = next_six_digits(p.rest, p.den);
    push_nat(s, nanos as u128);
    if behind != 0 {
        proof {
            reveal_strlit(".");
        }
        s.append(".");
        push_fraction(s, behind, p.den, FRACTION_DIGITS);
    }
    s.append(" ns");
    assert(s@ =~= before + ratio_text(p@.nanos.num as nat, p@.nanos.den as nat) + " ns"@);
}

/// Appends the seconds and what is finer, after coarser parts if `started`.
fn push_fine(s: &mut String, p: &Parts, started: bool)
    requires
        p.rest < p.den,
        started == coarse_shown(p@),
    ensures
        final(s)@ == old(s)@ + fine_text(p@),
{
    let ghost before = s@;
    if p.millis == 0 && p.rest == 0 {
        push_piece(s, p.seconds, " s");
    } else {
        let seconds_shown = p.seconds != 0 || started;
        if seconds_shown {
            push_piece(s, p.seconds, " s ");
        }
        if p.rest == 0 {
            push_piece(s, p.millis as u128, " ms");
        } else {
            if p.millis != 0 || seconds_shown {
                push_piece(s, p.millis as u128, " ms ");
            }
            push_nanos(s, p);
        }
    }
    assert(s@ =~= before + fine_text(p@));
}

impl Duration {
    /// The duration as text, such as `10 days 5 h 0 min 0 s` or
    /// `-5 h 0 min 0 s 256 ms`.
    pub fn to_string(&self) -> (s: String)
        ensures
            s@ == duration_text(self@),
    {
        let value: Decimal = self.seconds();
        if value.is_nan() {
            return String::from_str("NaN");
        }
        let p = parts_of(value.numer(), value.denom());
        let mut s = String::new();
        if value.is_negative() {
            s.append("-");
        }
        assert(s@ =~= sign_text(self@.unwrap().num < 0));
        let started = push_coarse(&mut s, &p);
        push_fine(&mut s, &p, started);
        s
    }
}

impl Decimal {
    /// The scalar as text, such as `-3.5`.
    pub fn to_string(&self) -> (s: String)
        ensures
            s@ == decimal_text(self@),
    {
        if self.is_nan() {
            return String::from_str("NaN");
        }
        let mut s = String::new();
        if self.is_negative() {
            s.append("-");
        }
        crate::text::push_ratio(&mut s, self.numer(), self.denom());
        s
    }
}

} // verus!
