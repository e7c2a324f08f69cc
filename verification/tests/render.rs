use hifitime::decimal::Decimal;
use hifitime::duration::{Duration, TimeUnit};

fn text(d: Duration) -> String {
    d.to_string()
}

#[test]
fn zero_renders_as_seconds() {
    assert_eq!(text(TimeUnit::Second * 0), "0 s");
    assert_eq!(text(TimeUnit::Day * 0), "0 s");
    assert_eq!(
        text(Duration::from_fraction(0, -7, TimeUnit::Hour).unwrap()),
        "0 s"
    );
}

#[test]
fn leading_zero_units_are_left_out() {
    assert_eq!(text(TimeUnit::Second * 59), "59 s");
    assert_eq!(text(TimeUnit::Second * 60), "1 min 0 s");
    assert_eq!(text(TimeUnit::Second * 3599), "59 min 59 s");
    assert_eq!(text(TimeUnit::Second * 3600), "1 h 0 min 0 s");
    assert_eq!(text(TimeUnit::Second * 86399), "23 h 59 min 59 s");
    assert_eq!(text(TimeUnit::Second * 86400), "1 days 0 h 0 min 0 s");
    assert_eq!(text(TimeUnit::Millisecond * 5), "5 ms");
    assert_eq!(text(TimeUnit::Nanosecond * 5), "5 ns");
    assert_eq!(text(TimeUnit::Nanosecond * 5_000_007), "5 ms 7 ns");
    assert_eq!(text(TimeUnit::Nanosecond * 1_000_000_007), "1 s 0 ms 7 ns");
    assert_eq!(text(TimeUnit::Millisecond * 1005), "1 s 5 ms");
    assert!(!text(TimeUnit::Hour * 23).starts_with("0 days"));
    assert!(!text(TimeUnit::Hour * 23).contains('d'));
}

#[test]
fn sub_second_units_are_left_out_without_a_remainder() {
    for shown in [
        text(TimeUnit::Day * 3),
        text(TimeUnit::Hour * 49),
        text(TimeUnit::Second * 1),
        text(TimeUnit::Second * -61),
    ] {
        assert!(shown.ends_with(" s"));
        assert!(!shown.ends_with("ms"));
        assert!(!shown.ends_with("ns"));
    }
}

#[test]
fn negative_durations_show_one_sign() {
    let cases: [(Duration, &str); 7] = [
        (TimeUnit::Second * -1, "-1 s"),
        (TimeUnit::Day * -2 + TimeUnit::Second * -1, "-2 days 0 h 0 min 1 s"),
        (TimeUnit::Millisecond * -256, "-256 ms"),
        (TimeUnit::Nanosecond * -3, "-3 ns"),
        (TimeUnit::Nanosecond * -256_000_003, "-256 ms 3 ns"),
        (TimeUnit::Nanosecond * -1_000_000_001, "-1 s 0 ms 1 ns"),
        (TimeUnit::Hour * -5 + TimeUnit::Millisecond * -256, "-5 h 0 min 0 s 256 ms"),
    ];
    for (duration, expected) in cases {
        let shown = text(duration);
        assert_eq!(shown, expected);
        assert_eq!(shown.matches('-').count(), 1);
        assert!(shown.starts_with('-'));
        assert!(shown.as_bytes()[1].is_ascii_digit());
    }
}

#[test]
fn nanoseconds_keep_their_fraction() {
    let half = Decimal::from_parts(false, 7, 2);
    assert_eq!(text(TimeUnit::Nanosecond * half), "3.5 ns");
    let third = Duration::from_fraction(1, 3, TimeUnit::Nanosecond).unwrap();
    assert_eq!(text(third), "0.333333333333333333 ns");
    let small = Duration::from_fraction(1, 8, TimeUnit::Nanosecond).unwrap();
    assert_eq!(text(small), "0.125 ns");
    let mixed = Duration::from_fraction(-10, 3, TimeUnit::Second).unwrap();
    assert_eq!(text(mixed), "-3 s 333 ms 333333.333333333333333333 ns");
}

#[test]
fn what_is_no_number_renders_as_such() {
    let huge = Duration::from_seconds(Decimal::from(u128::MAX));
    assert_eq!(text(huge + huge), "NaN");
    assert_eq!((Decimal::from(1) / Decimal::from(0)).to_string(), "NaN");
}

#[test]
fn extreme_magnitudes_render() {
    let huge = Duration::from_seconds(Decimal::from(u128::MAX));
    assert_eq!(
        text(huge),
        "3938453320844195178974243141571391 days 8 h 4 min 15 s"
    );
    let tiny = Duration::from_seconds(Decimal::from_parts(true, 1, u128::MAX));
    assert_eq!(text(tiny), "-0.000000000000000000 ns");
}

#[test]
fn scalars_render_as_decimal_text() {
    assert_eq!(Decimal::from(0).to_string(), "0");
    assert_eq!(Decimal::from(-42).to_string(), "-42");
    assert_eq!(Decimal::from(u128::MAX).to_string(), "340282366920938463463374607431768211455");
    assert_eq!(Decimal::from_parts(true, 7, 2).to_string(), "-3.5");
    assert_eq!(Decimal::from_parts(false, 1, 1000).to_string(), "0.001");
    assert_eq!(Decimal::from_parts(false, 2, 3).to_string(), "0.666666666666666666");
}
