use hifitime::decimal::Decimal;
use hifitime::duration::{magnitude_of, Duration, DurationError, TimeUnit};
use std::f64::EPSILON;

fn from_float(value: f64) -> Decimal {
    Decimal::from_decimal_str(&format!("{}", value)).unwrap()
}

fn to_float(value: Decimal) -> f64 {
    let magnitude = value.numer() as f64 / value.denom() as f64;
    if value.is_negative() {
        -magnitude
    } else {
        magnitude
    }
}

fn in_unit_f64(duration: Duration, unit: TimeUnit) -> f64 {
    to_float(duration.in_unit(unit))
}

#[test]
fn time_unit() {
    // Check that the same number is created for different types
    assert_eq!(TimeUnit::Day * from_float(10.0), TimeUnit::Day * 10);
    assert_eq!(TimeUnit::Hour * from_float(-7.0), TimeUnit::Hour * -7);
    assert_eq!(TimeUnit::Minute * from_float(-2.0), TimeUnit::Minute * -2);
    assert_eq!(TimeUnit::Second * from_float(3.0), TimeUnit::Second * 3);
    assert_eq!(
        TimeUnit::Millisecond * from_float(4.0),
        TimeUnit::Millisecond * 4
    );
    assert_eq!(
        TimeUnit::Nanosecond * from_float(5.0),
        TimeUnit::Nanosecond * 5
    );

    // Test operations
    let seven_hours = TimeUnit::Hour * 7;
    let six_minutes = TimeUnit::Minute * 6;
    let five_seconds = TimeUnit::Second * from_float(5.0);
    let sum: Duration = seven_hours + six_minutes + five_seconds;
    assert!((in_unit_f64(sum, TimeUnit::Second) - 25565.0).abs() < EPSILON);

    let sub: Duration = seven_hours - six_minutes - five_seconds;
    assert!((in_unit_f64(sub, TimeUnit::Second) - 24835.0).abs() < EPSILON);

    // Check printing adds precision
    let shown: Duration = TimeUnit::Day * from_float(10.0) + TimeUnit::Hour * 5;
    assert_eq!(shown.to_string(), "10 days 5 h 0 min 0 s");

    let shown: Duration = TimeUnit::Hour * 5 + TimeUnit::Millisecond * 256;
    assert_eq!(shown.to_string(), "5 h 0 min 0 s 256 ms");

    let shown: Duration = TimeUnit::Hour * 5 + TimeUnit::Millisecond * 256 + TimeUnit::Nanosecond;
    assert_eq!(shown.to_string(), "5 h 0 min 0 s 256 ms 1 ns");

    let shown: Duration = TimeUnit::Hour + TimeUnit::Second;
    assert_eq!(shown.to_string(), "1 h 0 min 1 s");

    let shown: Duration = TimeUnit::Hour * 5
        + TimeUnit::Millisecond * 256
        + TimeUnit::Nanosecond * from_float(3.5);
    assert_eq!(shown.to_string(), "5 h 0 min 0 s 256 ms 3.5 ns");

    // Check printing negative durations only shows one negative sign
    let shown: Duration = TimeUnit::Hour * -5 + TimeUnit::Millisecond * -256;
    assert_eq!(shown.to_string(), "-5 h 0 min 0 s 256 ms");

    let shown: Duration = TimeUnit::Hour * -5
        + TimeUnit::Millisecond * -256
        + TimeUnit::Nanosecond * from_float(-3.5);
    assert_eq!(shown.to_string(), "-5 h 0 min 0 s 256 ms 3.5 ns");

    // Check that we support nanoseconds pas GPS time
    let now = TimeUnit::Nanosecond * 1286495254000000123_u128;
    assert_eq!(now.to_string(), "14889 days 23 h 47 min 34 s 0 ms 123 ns");

    // Test fractional
    let quarter_hour = Duration::from_fraction(1, 4, TimeUnit::Hour).unwrap();
    let third_hour = Duration::from_fraction(1, 3, TimeUnit::Hour).unwrap();
    let sum = quarter_hour + third_hour;
    assert!((in_unit_f64(sum, TimeUnit::Minute) - 35.0).abs() < EPSILON);
    println!(
        "Duration: {}\nFloating: {}",
        in_unit_f64(sum, TimeUnit::Minute),
        (1.0 / 4.0 + 1.0 / 3.0) * 60.0
    );
    assert_eq!(sum.to_string(), "35 min 0 s"); // Note the automatic unit selection

    let quarter_hour = Duration::from_fraction(-1, 4, TimeUnit::Hour).unwrap();
    let third_hour = Duration::from_fraction(1, -3, TimeUnit::Hour).unwrap();
    let sum = quarter_hour + third_hour;
    let delta = sum.in_unit(TimeUnit::Millisecond).floor()
        - sum.in_unit(TimeUnit::Second).floor() * from_float(1000.0);
    println!("{:?}", delta * Decimal::from(-1) == Decimal::from(0));
    assert!((in_unit_f64(sum, TimeUnit::Minute) + 35.0).abs() < EPSILON);
    assert_eq!(sum.to_string(), "-35 min 0 s"); // Note the automatic unit selection
}

#[test]
fn zero_denominator_is_refused() {
    assert_eq!(
        Duration::from_fraction(1, 0, TimeUnit::Hour),
        Err(DurationError::InvalidDenominator)
    );
    assert_eq!(
        Duration::from_fraction(0, 0, TimeUnit::Second),
        Err(DurationError::InvalidDenominator)
    );
    assert_eq!(
        Duration::from_fraction(i64::MIN, 0, TimeUnit::Day),
        Err(DurationError::InvalidDenominator)
    );
}

#[test]
fn unit_factors_are_exact() {
    assert_eq!(TimeUnit::Day.in_seconds(), Decimal::from(86400));
    assert_eq!(TimeUnit::Hour.in_seconds(), Decimal::from(3600));
    assert_eq!(TimeUnit::Minute.in_seconds(), Decimal::from(60));
    assert_eq!(TimeUnit::Second.in_seconds(), Decimal::from(1));
    assert_eq!(
        TimeUnit::Millisecond.in_seconds(),
        Decimal::from_parts(false, 1, 1000)
    );
    assert_eq!(
        TimeUnit::Nanosecond.in_seconds(),
        Decimal::from_parts(false, 1, 1_000_000_000)
    );
    assert_eq!(
        TimeUnit::Day.from_seconds(),
        Decimal::from_parts(false, 1, 86400)
    );
    assert_eq!(
        TimeUnit::Hour.from_seconds(),
        Decimal::from_parts(false, 1, 3600)
    );
    assert_eq!(
        TimeUnit::Minute.from_seconds(),
        Decimal::from_parts(false, 1, 60)
    );
    assert_eq!(TimeUnit::Second.from_seconds(), Decimal::from(1));
    assert_eq!(TimeUnit::Millisecond.from_seconds(), Decimal::from(1000));
    assert_eq!(
        TimeUnit::Nanosecond.from_seconds(),
        Decimal::from(1_000_000_000)
    );
}

#[test]
fn constructors_scale_to_seconds() {
    let two = Decimal::from(2);
    assert_eq!(Duration::from_days(two).seconds(), Decimal::from(172800));
    assert_eq!(Duration::from_hours(two).seconds(), Decimal::from(7200));
    assert_eq!(Duration::from_minutes(two).seconds(), Decimal::from(120));
    assert_eq!(Duration::from_seconds(two).seconds(), two);
    assert_eq!(
        Duration::from_millseconds(two).seconds(),
        Decimal::from_parts(false, 1, 500)
    );
    assert_eq!(
        Duration::from_nanoseconds(two).seconds(),
        Decimal::from_parts(false, 1, 500_000_000)
    );
    assert_eq!(
        Duration::from_unit(two, TimeUnit::Hour),
        Duration::from_hours(two)
    );
    assert_eq!(TimeUnit::Hour * two, Duration::from_hours(two));
}

#[test]
fn in_unit_is_exact() {
    let day_and_half: Duration = TimeUnit::Hour * 36;
    assert_eq!(
        day_and_half.in_unit(TimeUnit::Day),
        Decimal::from_parts(false, 3, 2)
    );
    assert_eq!(day_and_half.in_unit(TimeUnit::Hour), Decimal::from(36));
    assert_eq!(day_and_half.in_unit(TimeUnit::Minute), Decimal::from(2160));
    assert_eq!(day_and_half.in_unit(TimeUnit::Second), Decimal::from(129600));
    assert_eq!(
        day_and_half.in_unit(TimeUnit::Millisecond),
        Decimal::from(129_600_000)
    );
    assert_eq!(
        day_and_half.in_unit(TimeUnit::Nanosecond),
        Decimal::from(129_600_000_000_000_u64)
    );
}

#[test]
fn every_integer_kind_gives_the_same_duration() {
    let expected = Duration::from_minutes(Decimal::from(7));
    assert_eq!(TimeUnit::Minute * 7_u8, expected);
    assert_eq!(TimeUnit::Minute * 7_i8, expected);
    assert_eq!(TimeUnit::Minute * 7_u16, expected);
    assert_eq!(TimeUnit::Minute * 7_i16, expected);
    assert_eq!(TimeUnit::Minute * 7_u32, expected);
    assert_eq!(TimeUnit::Minute * 7_i32, expected);
    assert_eq!(TimeUnit::Minute * 7_u64, expected);
    assert_eq!(TimeUnit::Minute * 7_i64, expected);
    assert_eq!(TimeUnit::Minute * 7_u128, expected);
    assert_eq!(TimeUnit::Minute * from_float(7.0), expected);
    assert_eq!(expected.seconds(), Decimal::from(420));
}

#[test]
fn conversion_spreads_over_a_sum() {
    let a: Duration = TimeUnit::Hour * 7;
    let b: Duration = TimeUnit::Minute * 6;
    let c: Duration = TimeUnit::Second * 5;
    let total: Duration = a + b + c;
    for unit in [
        TimeUnit::Day,
        TimeUnit::Hour,
        TimeUnit::Minute,
        TimeUnit::Second,
        TimeUnit::Millisecond,
        TimeUnit::Nanosecond,
    ] {
        let whole = total.in_unit(unit);
        let parts = a.in_unit(unit) + b.in_unit(unit) + c.in_unit(unit);
        assert!(!whole.is_nan());
        assert_eq!(whole, parts);
    }
    assert_eq!(total.in_unit(TimeUnit::Second), Decimal::from(25565));
}

#[test]
fn fraction_signs_are_symmetric() {
    for unit in [TimeUnit::Day, TimeUnit::Hour, TimeUnit::Nanosecond] {
        for (n, d) in [(1_i64, 4_i64), (7, 3), (0, 5), (22, 7), (1, 1_000_000_007)] {
            let plain = Duration::from_fraction(n, d, unit).unwrap();
            assert_eq!(Duration::from_fraction(-n, -d, unit).unwrap(), plain);
            assert_eq!(Duration::from_fraction(n, -d, unit).unwrap(), -plain);
            assert_eq!(Duration::from_fraction(-n, d, unit).unwrap(), -plain);
        }
    }
    assert_eq!(
        Duration::from_fraction(1, 4, TimeUnit::Hour).unwrap().seconds(),
        Decimal::from(900)
    );
    assert_eq!(
        Duration::from_fraction(-1, 3, TimeUnit::Hour).unwrap().seconds(),
        Decimal::from(-1200)
    );
}

#[test]
fn fraction_takes_the_smallest_integer() {
    let d = Duration::from_fraction(i64::MIN, 1, TimeUnit::Second).unwrap();
    assert_eq!(d.seconds(), Decimal::from(i64::MIN));
    let d = Duration::from_fraction(1, i64::MIN, TimeUnit::Second).unwrap();
    assert_eq!(
        d.seconds(),
        Decimal::from_parts(true, 1, 9_223_372_036_854_775_808)
    );
}

#[test]
fn arithmetic_with_units_counts_one_unit() {
    let base: Duration = TimeUnit::Minute * 10;
    assert_eq!(base + TimeUnit::Second, TimeUnit::Second * 601);
    assert_eq!(base - TimeUnit::Second, TimeUnit::Second * 599);
    assert_eq!(TimeUnit::Hour + TimeUnit::Minute, TimeUnit::Minute * 61);
    assert_eq!(TimeUnit::Hour - TimeUnit::Minute, TimeUnit::Minute * 59);
    let mut running = base;
    running += TimeUnit::Minute;
    assert_eq!(running, TimeUnit::Minute * 11);
    running -= TimeUnit::Hour;
    assert_eq!(running, TimeUnit::Minute * -49);
    running += TimeUnit::Minute * 49;
    assert_eq!(running, TimeUnit::Second * 0);
    running -= TimeUnit::Millisecond * 1;
    assert_eq!(running.seconds(), Decimal::from_parts(true, 1, 1000));
}

#[test]
fn what_does_not_fit_is_no_number() {
    let huge = Duration::from_seconds(Decimal::from(u128::MAX));
    assert!((huge + huge).seconds().is_nan());
    assert!(huge.in_unit(TimeUnit::Nanosecond).is_nan());
    assert!(Duration::from_days(Decimal::from(u128::MAX)).seconds().is_nan());
    assert!(!huge.in_unit(TimeUnit::Day).is_nan());
    assert!((huge - huge).seconds().is_zero());
}

#[test]
fn magnitudes_of_integers() {
    assert_eq!(magnitude_of(0), 0);
    assert_eq!(magnitude_of(5), 5);
    assert_eq!(magnitude_of(-5), 5);
    assert_eq!(magnitude_of(i64::MAX), 9_223_372_036_854_775_807);
    assert_eq!(magnitude_of(i64::MIN), 9_223_372_036_854_775_808);
}

#[test]
fn negation_turns_a_duration_round() {
    let d: Duration = TimeUnit::Minute * 3;
    assert_eq!(-d, TimeUnit::Minute * -3);
    assert_eq!(-(-d), d);
    let zero: Duration = TimeUnit::Second * 0;
    assert_eq!(-zero, zero);
    assert_eq!((-d).to_string(), "-3 min 0 s");
}
