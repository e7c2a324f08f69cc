use hifitime::decimal::Decimal;
use hifitime::duration::{Duration, TimeUnit};

fn seconds(num: u128, den: u128) -> Duration {
    Duration::from_seconds(Decimal::from_parts(false, num, den))
}

#[test]
fn each_magnitude_has_its_unit() {
    assert_eq!(seconds(0, 1).suited_unit(), TimeUnit::Nanosecond);
    assert_eq!(seconds(1, 1_000_000).suited_unit(), TimeUnit::Nanosecond);
    assert_eq!(seconds(1, 1000).suited_unit(), TimeUnit::Millisecond);
    assert_eq!(seconds(1, 1).suited_unit(), TimeUnit::Second);
    assert_eq!(seconds(200, 1).suited_unit(), TimeUnit::Minute);
    assert_eq!(seconds(7200, 1).suited_unit(), TimeUnit::Hour);
    assert_eq!(seconds(172800, 1).suited_unit(), TimeUnit::Day);
    assert_eq!(seconds(u128::MAX, 1).suited_unit(), TimeUnit::Day);
    assert_eq!(seconds(1, u128::MAX).suited_unit(), TimeUnit::Nanosecond);
}

#[test]
fn thresholds_belong_to_the_coarser_unit() {
    assert_eq!(seconds(1, 100_000).suited_unit(), TimeUnit::Millisecond);
    assert_eq!(seconds(99_999, 10_000_000_000).suited_unit(), TimeUnit::Nanosecond);
    assert_eq!(seconds(1, 100).suited_unit(), TimeUnit::Second);
    assert_eq!(seconds(9_999, 1_000_000).suited_unit(), TimeUnit::Millisecond);
    assert_eq!(seconds(180, 1).suited_unit(), TimeUnit::Minute);
    assert_eq!(seconds(179_999, 1000).suited_unit(), TimeUnit::Second);
    assert_eq!(seconds(3600, 1).suited_unit(), TimeUnit::Hour);
    assert_eq!(seconds(3_599_999, 1000).suited_unit(), TimeUnit::Minute);
    assert_eq!(seconds(86400, 1).suited_unit(), TimeUnit::Day);
    assert_eq!(seconds(86_399_999, 1000).suited_unit(), TimeUnit::Hour);
}

#[test]
fn the_unit_goes_by_the_magnitude() {
    let minus: Duration = TimeUnit::Hour * -2;
    assert_eq!(minus.suited_unit(), TimeUnit::Hour);
    let minus: Duration = TimeUnit::Nanosecond * -5;
    assert_eq!(minus.suited_unit(), TimeUnit::Nanosecond);
    let huge = seconds(u128::MAX, 1);
    assert_eq!((huge + huge).suited_unit(), TimeUnit::Day);
}

#[test]
fn the_duration_is_counted_in_its_unit() {
    let d: Duration = TimeUnit::Minute * 35;
    assert_eq!(d.in_suited_unit(), (Decimal::from(35), TimeUnit::Minute));
    let d: Duration = TimeUnit::Hour * 36;
    assert_eq!(
        d.in_suited_unit(),
        (Decimal::from_parts(false, 3, 2), TimeUnit::Day)
    );
    let d: Duration = TimeUnit::Nanosecond * -1500;
    assert_eq!(d.in_suited_unit(), (Decimal::from(-1500), TimeUnit::Nanosecond));
    let d: Duration = TimeUnit::Nanosecond * 15000;
    assert_eq!(
        d.in_suited_unit(),
        (Decimal::from_parts(false, 3, 200), TimeUnit::Millisecond)
    );
}

#[test]
fn units_have_names() {
    assert_eq!(TimeUnit::Day.name(), "days");
    assert_eq!(TimeUnit::Hour.name(), "h");
    assert_eq!(TimeUnit::Minute.name(), "min");
    assert_eq!(TimeUnit::Second.name(), "s");
    assert_eq!(TimeUnit::Millisecond.name(), "ms");
    assert_eq!(TimeUnit::Nanosecond.name(), "ns");
}
