use hifitime::decimal::Decimal;
use hifitime::fraction::Fraction;
use hifitime::numtheory::gcd_u128;
use hifitime::order::ratio_below;

#[test]
fn scalars_are_kept_in_lowest_terms() {
    let d = Decimal::from_parts(false, 6, 4);
    assert_eq!(d.numer(), 3);
    assert_eq!(d.denom(), 2);
    assert!(!d.is_negative());
    let d = Decimal::from_parts(true, 0, 9);
    assert_eq!(d, Decimal::from(0));
    assert!(d.is_zero());
    assert!(!d.is_negative());
    let d = Decimal::from_parts(true, 10, 5);
    assert_eq!(d, Decimal::from(-2));
    assert!(Decimal::from_parts(false, 1, 0).is_nan());
    assert_eq!(Decimal::from_parts(true, 1, 0), Decimal::nan());
}

#[test]
fn scalar_arithmetic_is_exact() {
    let third = Decimal::from_parts(false, 1, 3);
    let quarter = Decimal::from_parts(false, 1, 4);
    assert_eq!(third + quarter, Decimal::from_parts(false, 7, 12));
    assert_eq!(third - quarter, Decimal::from_parts(false, 1, 12));
    assert_eq!(quarter - third, Decimal::from_parts(true, 1, 12));
    assert_eq!(third * quarter, Decimal::from_parts(false, 1, 12));
    assert_eq!(third / quarter, Decimal::from_parts(false, 4, 3));
    assert_eq!(-third, Decimal::from_parts(true, 1, 3));
    assert_eq!((-third).abs(), third);
    assert_eq!(third + third + third, Decimal::from(1));
    assert_eq!(Decimal::from(-3) * Decimal::from(-5), Decimal::from(15));
    assert_eq!(Decimal::from(-3) / Decimal::from(6), Decimal::from_parts(true, 1, 2));
}

#[test]
fn floor_rounds_toward_negative_infinity() {
    assert_eq!(Decimal::from_parts(false, 7, 2).floor(), Decimal::from(3));
    assert_eq!(Decimal::from_parts(true, 7, 2).floor(), Decimal::from(-4));
    assert_eq!(Decimal::from(-4).floor(), Decimal::from(-4));
    assert_eq!(Decimal::from_parts(true, 1, 1000).floor(), Decimal::from(-1));
    assert_eq!(Decimal::from(0).floor(), Decimal::from(0));
    assert!(Decimal::nan().floor().is_nan());
}

#[test]
fn division_by_zero_is_no_number() {
    assert!((Decimal::from(1) / Decimal::from(0)).is_nan());
    assert!((Decimal::from(0) / Decimal::from(0)).is_nan());
    assert!((Decimal::nan() + Decimal::from(1)).is_nan());
    assert!((Decimal::from(1) * Decimal::nan()).is_nan());
    assert!((-Decimal::nan()).is_nan());
    assert!(Decimal::nan().abs().is_nan());
    assert_eq!(Decimal::nan().numer(), 0);
    assert_eq!(Decimal::nan().denom(), 0);
}

#[test]
fn products_give_up_common_divisors_first() {
    let big = Decimal::from(u128::MAX);
    let small = Decimal::from_parts(false, 1, u128::MAX);
    assert_eq!(big * small, Decimal::from(1));
    assert!((big * Decimal::from(2)).is_nan());
    assert!((small * small).is_nan());
    assert_eq!(big + Decimal::from(0), big);
    assert!((big + Decimal::from(1)).is_nan());
    assert_eq!(big - big, Decimal::from(0));
}

#[test]
fn every_integer_kind_converts() {
    assert_eq!(Decimal::from(200_u8).numer(), 200);
    assert_eq!(Decimal::from(-128_i8), Decimal::from_parts(true, 128, 1));
    assert_eq!(Decimal::from(65535_u16).numer(), 65535);
    assert_eq!(Decimal::from(i16::MIN), Decimal::from_parts(true, 32768, 1));
    assert_eq!(Decimal::from(u32::MAX).numer(), 4294967295);
    assert_eq!(Decimal::from(i32::MIN), Decimal::from_parts(true, 2147483648, 1));
    assert_eq!(Decimal::from(u64::MAX).numer(), 18446744073709551615);
    assert_eq!(
        Decimal::from(i64::MIN),
        Decimal::from_parts(true, 9223372036854775808, 1)
    );
    assert_eq!(Decimal::from(u128::MAX).numer(), u128::MAX);
    assert_eq!(Decimal::from_magnitude(true, 5), Decimal::from(-5));
}

#[test]
fn fractions_convert_with_their_sign() {
    assert_eq!(
        Decimal::from_fraction(Fraction::new(2, 8)),
        Decimal::from_parts(false, 1, 4)
    );
    assert_eq!(
        Decimal::from_fraction(Fraction::new_neg(2, 8)),
        Decimal::from_parts(true, 1, 4)
    );
    assert_eq!(Fraction::new_neg(0, 8).to_decimal(), Decimal::from(0));
    assert!(Fraction::new(1, 0).to_decimal().is_nan());
    assert!(Decimal::from_fraction(Fraction::new_neg(0, 0)).is_nan());
}

#[test]
fn greatest_common_divisor() {
    assert_eq!(gcd_u128(12, 18), 6);
    assert_eq!(gcd_u128(18, 12), 6);
    assert_eq!(gcd_u128(0, 5), 5);
    assert_eq!(gcd_u128(5, 0), 5);
    assert_eq!(gcd_u128(0, 0), 0);
    assert_eq!(gcd_u128(17, 13), 1);
    assert_eq!(gcd_u128(u128::MAX, u128::MAX), u128::MAX);
}

#[test]
fn scalars_are_ordered_by_value() {
    let third = Decimal::from_parts(false, 1, 3);
    let quarter = Decimal::from_parts(false, 1, 4);
    assert!(quarter < third);
    assert!(third > quarter);
    assert!(-third < -quarter);
    assert!(-third < quarter);
    assert!(!(quarter < -third));
    assert!(third <= third);
    assert!(third >= third);
    assert!(!(third < third));
    assert!(Decimal::from(0) < quarter);
    assert!(-quarter < Decimal::from(0));
    assert!(Decimal::from(2) < Decimal::from_parts(false, 7, 3));
    assert!(Decimal::from_parts(false, 7, 3) < Decimal::from(3));
    assert!(third.is_below(&Decimal::from(1)));
    assert!(!Decimal::from(1).is_below(&third));
}

#[test]
fn large_scalars_are_ordered_exactly() {
    let a = Decimal::from_parts(false, u128::MAX, u128::MAX - 1);
    let b = Decimal::from_parts(false, u128::MAX - 1, u128::MAX - 2);
    assert!(a < b);
    assert!(b > a);
    assert!(!(a < a));
    let c = Decimal::from_parts(false, 1, u128::MAX);
    let d = Decimal::from_parts(false, 1, u128::MAX - 1);
    assert!(c < d);
    assert!(-d < -c);
    assert!(ratio_below(1, 3, 1, 2));
    assert!(!ratio_below(1, 2, 1, 3));
    assert!(!ratio_below(2, 4, 1, 2));
}

#[test]
fn what_is_no_number_stands_in_no_order() {
    let one = Decimal::from(1);
    assert!(!(Decimal::nan() < one));
    assert!(!(Decimal::nan() > one));
    assert!(!(one < Decimal::nan()));
    assert_eq!(Decimal::nan().partial_cmp(&one), None);
    assert_eq!(
        Decimal::nan().partial_cmp(&Decimal::nan()),
        Some(std::cmp::Ordering::Equal)
    );
    assert_eq!(one.partial_cmp(&one), Some(std::cmp::Ordering::Equal));
    assert_eq!(
        one.partial_cmp(&Decimal::from(2)),
        Some(std::cmp::Ordering::Less)
    );
    assert_eq!(
        Decimal::from(2).partial_cmp(&one),
        Some(std::cmp::Ordering::Greater)
    );
}
