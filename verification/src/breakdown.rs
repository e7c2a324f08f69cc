//! A duration taken apart into days, hours, minutes, seconds, milliseconds
//! and nanoseconds.

use crate::duration::TimeUnit;
use crate::rational::{lemma_lowest_terms, lowest_terms, product, Rational};
use vstd::arithmetic::div_mod::{
    lemma_div_denominator, lemma_div_multiples_vanish_quotient, lemma_fundamental_div_mod,
    lemma_mod_pos_bound,
};
use vstd::prelude::*;

verus! {

/// A duration that is not negative, taken apart: each part is what is left at
/// its granularity once the coarser parts are taken away.
pub struct Breakdown {
    pub days: int,
    pub hours: int,
    pub minutes: int,
    pub seconds: int,
    pub millis: int,
    pub nanos: Rational,
}

/// How many whole `unit` the seconds `x` hold, for an `x` that is not
/// negative.
pub open spec fn floor_in(x: Rational, unit: TimeUnit) -> int {
    let f = unit.per_second();
    (x.num * f.num) / (x.den * f.den)
}

/// The parts of the seconds `x`, which are not negative. The nanoseconds are
/// exact, and so a ratio; every other part is whole.
pub open spec fn breakdown(x: Rational) -> Breakdown {
    let days = floor_in(x, TimeUnit::Day);
    let hours = floor_in(x, TimeUnit::Hour);
    let minutes = floor_in(x, TimeUnit::Minute);
    let seconds = floor_in(x, TimeUnit::Second);
    let millis = floor_in(x, TimeUnit::Millisecond);
    Breakdown {
        days,
        hours: hours - days * 24,
        minutes: minutes - hours * 60,
        seconds: seconds - minutes * 60,
        millis: millis - seconds * 1000,
        nanos: Rational { num: x.num * 1000000000 - millis * 1000000 * x.den, den: x.den },
    }
}

/// The parts lose nothing and overlap nowhere: none is negative, each but
/// the days stays below one of the next coarser unit, and together they are
/// the duration.
pub proof fn lemma_breakdown(x: Rational)
    requires
        x.num >= 0,
        x.den > 0,
    ensures
        ({
            let b = breakdown(x);
            &&& 0 <= b.days
            &&& 0 <= b.hours < 24
            &&& 0 <= b.minutes < 60
            &&& 0 <= b.seconds < 60
            &&& 0 <= b.millis < 1000
            &&& b.nanos.den == x.den
            &&& 0 <= b.nanos.num < 1000000 * x.den
            &&& (((((b.days * 24 + b.hours) * 60 + b.minutes) * 60 + b.seconds) * 1000
                + b.millis) * 1000000) * x.den + b.nanos.num == x.num * 1000000000
        }),
{
    let n = x.num;
    let d = x.den;
    let w = n / d;
    assert(n * 1 == n && d * 1 == d);
    lemma_div_denominator(n, d, 86400);
    lemma_div_denominator(n, d, 3600);
    lemma_div_denominator(n, d, 60);
    assert(floor_in(x, TimeUnit::Day) == w / 86400);
    assert(floor_in(x, TimeUnit::Hour) == w / 3600);
    assert(floor_in(x, TimeUnit::Minute) == w / 60);
    assert(floor_in(x, TimeUnit::Second) == w);
    let ms = (n * 1000) / d;
    assert(floor_in(x, TimeUnit::Millisecond) == ms);
    lemma_fundamental_div_mod(n, d);
    lemma_mod_pos_bound(n, d);
    assert(w >= 0) by (nonlinear_arith)
        requires
            n == d * w + n % d,
            0 <= n % d < d,
            n >= 0,
    ;
    lemma_div_denominator(w, 3600, 24);
    lemma_div_denominator(w, 60, 60);
    lemma_fundamental_div_mod(w / 3600, 24);
    lemma_fundamental_div_mod(w / 60, 60);
    lemma_fundamental_div_mod(w, 60);
    lemma_mod_pos_bound(w / 3600, 24);
    lemma_mod_pos_bound(w / 60, 60);
    lemma_mod_pos_bound(w, 60);
    assert(w / 86400 >= 0) by (nonlinear_arith)
        requires
            w >= 0,
    ;
    lemma_fundamental_div_mod(n * 1000, d);
    lemma_mod_pos_bound(n * 1000, d);
    let left = (n * 1000) % d;
    assert(0 <= ms - w * 1000 < 1000) by (nonlinear_arith)
        requires
            n == d * w + n % d,
            0 <= n % d < d,
            n * 1000 == d * ms + left,
            0 <= left < d,
    ;
    assert(n * 1000000000 - ms * 1000000 * d == 1000000 * left) by (nonlinear_arith)
        requires
            n * 1000 == d * ms + left,
    ;
    let b = breakdown(x);
    assert(b.nanos.num == 1000000 * left);
    assert((ms * 1000000) * d == ms * 1000000 * d) by (nonlinear_arith);
}

/// The whole units of a duration are the floor of the duration counted in
/// that unit, wherever that count is a number.
pub proof fn lemma_floor_in(x: Rational, unit: TimeUnit)
    requires
        x.num >= 0,
        x.den > 0,
    ensures
        product(Some(x), Some(unit.per_second())) matches Some(p) ==> p.floor() == floor_in(
            x,
            unit,
        ),
{
    let f = unit.per_second();
    unit.lemma_factors();
    let e = x.times(f);
    let p = lowest_terms(e.num, e.den);
    assert(e.den > 0 && e.num >= 0) by (nonlinear_arith)
        requires
            e.den == x.den * f.den,
            e.num == x.num * f.num,
            x.den > 0,
            f.den > 0,
            x.num >= 0,
            f.num >= 0,
    ;
    lemma_lowest_terms(e.num, e.den);
    // e is p with both parts multiplied by the same number
    let k = e.den / p.den;
    crate::rational::lemma_lowest_terms_factor(e.num, e.den);
    lemma_div_multiples_vanish_quotient(k, p.num, p.den);
}

} // verus!
