use hifitime::decimal::Decimal;
use hifitime::parse::digit_of;
use hifitime::text::{next_digit, next_six_digits, next_three_digits, push_digit, push_fraction, push_nat, push_ratio};

#[test]
fn numerals_are_read_exactly() {
    assert_eq!(Decimal::from_decimal_str("10"), Some(Decimal::from(10)));
    assert_eq!(Decimal::from_decimal_str("10.0"), Some(Decimal::from(10)));
    assert_eq!(Decimal::from_decimal_str("-7"), Some(Decimal::from(-7)));
    assert_eq!(Decimal::from_decimal_str("+7"), Some(Decimal::from(7)));
    assert_eq!(
        Decimal::from_decimal_str("3.5"),
        Some(Decimal::from_parts(false, 7, 2))
    );
    assert_eq!(
        Decimal::from_decimal_str("-0.001"),
        Some(Decimal::from_parts(true, 1, 1000))
    );
    assert_eq!(
        Decimal::from_decimal_str("0.000000001"),
        Some(Decimal::from_parts(false, 1, 1_000_000_000))
    );
    assert_eq!(Decimal::from_decimal_str("-0"), Some(Decimal::from(0)));
    assert_eq!(Decimal::from_decimal_str("007"), Some(Decimal::from(7)));
    assert_eq!(
        Decimal::from_decimal_str("340282366920938463463374607431768211455"),
        Some(Decimal::from(u128::MAX))
    );
}

#[test]
fn what_is_no_numeral_is_refused() {
    for text in ["", "-", "+", ".", ".5", "5.", "1.2.3", "1e5", "abc", "1 ", " 1", "--1", "1-", "NaN", "inf", "1,5", "٣"] {
        assert_eq!(Decimal::from_decimal_str(text), None);
    }
}

#[test]
fn numerals_too_long_are_no_number() {
    assert_eq!(
        Decimal::from_decimal_str("340282366920938463463374607431768211456"),
        Some(Decimal::nan())
    );
    assert_eq!(
        Decimal::from_decimal_str("0.000000000000000000000000000000000000001"),
        Some(Decimal::nan())
    );
    assert_eq!(
        Decimal::from_decimal_str("0.00000000000000000000000000000000000001"),
        Some(Decimal::from_parts(false, 1, 100000000000000000000000000000000000000))
    );
}

#[test]
fn whole_numbers_read_back() {
    for n in [0_i64, 1, -1, 9, 10, -10, 99, 100, 12345, i64::MAX, i64::MIN] {
        let d = Decimal::from(n);
        assert_eq!(d.to_string(), n.to_string());
        assert_eq!(Decimal::from_decimal_str(&d.to_string()), Some(d));
    }
}

#[test]
fn digits_are_recognised() {
    assert_eq!(digit_of('0'), Some(0));
    assert_eq!(digit_of('5'), Some(5));
    assert_eq!(digit_of('9'), Some(9));
    assert_eq!(digit_of('a'), None);
    assert_eq!(digit_of('.'), None);
    assert_eq!(digit_of('-'), None);
}

#[test]
fn digits_behind_the_point() {
    assert_eq!(next_digit(1, 3), (3, 1));
    assert_eq!(next_digit(1, 8), (1, 2));
    assert_eq!(next_digit(0, 8), (0, 0));
    assert_eq!(next_digit(u128::MAX - 1, u128::MAX), (9, u128::MAX - 10));
    assert_eq!(next_three_digits(1, 8), (125, 0));
    assert_eq!(next_three_digits(1, 3), (333, 1));
    assert_eq!(next_six_digits(1, 7), (142857, 1));
}

#[test]
fn text_is_appended() {
    let mut s = String::from("x");
    push_digit(&mut s, 7);
    assert_eq!(s, "x7");
    push_nat(&mut s, 0);
    assert_eq!(s, "x70");
    push_nat(&mut s, 1203);
    assert_eq!(s, "x701203");
    push_fraction(&mut s, 1, 8, 18);
    assert_eq!(s, "x701203125");
    push_fraction(&mut s, 1, 3, 2);
    assert_eq!(s, "x70120312533");
    let mut s = String::new();
    push_ratio(&mut s, 7, 2);
    assert_eq!(s, "3.5");
    let mut s = String::new();
    push_ratio(&mut s, 8, 2);
    assert_eq!(s, "4");
}
