use universalis_alerts::scalar::Scalar;
use universalis_alerts::text::{push_decimal, push_digit, push_fraction, push_signed_decimal};

fn decimal_of(n: u64) -> String {
    let mut out = String::new();
    push_decimal(&mut out, n);
    out
}

fn signed_decimal_of(n: i64) -> String {
    let mut out = String::new();
    push_signed_decimal(&mut out, n);
    out
}

#[test]
fn digits_are_appended() {
    let mut out = String::from("x");
    push_digit(&mut out, 0);
    push_digit(&mut out, 9);
    push_digit(&mut out, 5);
    assert_eq!(out, "x095");
}

#[test]
fn decimal_of_unsigned_numbers() {
    assert_eq!(decimal_of(0), "0");
    assert_eq!(decimal_of(7), "7");
    assert_eq!(decimal_of(10), "10");
    assert_eq!(decimal_of(1234567890), "1234567890");
    assert_eq!(decimal_of(u64::MAX), "18446744073709551615");
}

#[test]
fn decimal_is_appended_to_what_is_there() {
    let mut out = String::from("id=");
    push_decimal(&mut out, 42);
    assert_eq!(out, "id=42");
}

#[test]
fn decimal_of_signed_numbers() {
    assert_eq!(signed_decimal_of(0), "0");
    assert_eq!(signed_decimal_of(-1), "-1");
    assert_eq!(signed_decimal_of(39872), "39872");
    assert_eq!(signed_decimal_of(i64::MAX), "9223372036854775807");
    assert_eq!(signed_decimal_of(i64::MIN), "-9223372036854775808");
    assert_eq!(signed_decimal_of(i32::MIN as i64), "-2147483648");
}

#[test]
fn fraction_digits_stop_when_nothing_is_left() {
    let mut out = String::new();
    push_fraction(&mut out, 1, 2, 6);
    assert_eq!(out, "5");
    let mut out = String::new();
    push_fraction(&mut out, 1, 8, 6);
    assert_eq!(out, "125");
    let mut out = String::new();
    push_fraction(&mut out, 0, 8, 6);
    assert_eq!(out, "");
}

#[test]
fn fraction_digits_are_cut_after_the_places() {
    let mut out = String::new();
    push_fraction(&mut out, 1, 3, 6);
    assert_eq!(out, "333333");
    let mut out = String::new();
    push_fraction(&mut out, 2, 3, 4);
    assert_eq!(out, "6666");
    let mut out = String::new();
    push_fraction(&mut out, 1, 3, 0);
    assert_eq!(out, "");
    let mut out = String::new();
    push_fraction(&mut out, u64::MAX - 1, u64::MAX, 3);
    assert_eq!(out, "999");
}

#[test]
fn scalar_text_of_whole_numbers() {
    assert_eq!(Scalar::from_int(0).to_text(), "0");
    assert_eq!(Scalar::from_int(150).to_text(), "150");
    assert_eq!(Scalar::from_int(-150).to_text(), "-150");
    assert_eq!(Scalar::new(60, 3).unwrap().to_text(), "20");
    assert_eq!(Scalar::from_int(i64::MIN).to_text(), "-9223372036854775808");
    assert_eq!(Scalar::from_int(i64::MAX).to_text(), "9223372036854775807");
}

#[test]
fn scalar_text_of_fractions() {
    assert_eq!(Scalar::new(301, 2).unwrap().to_text(), "150.5");
    assert_eq!(Scalar::new(-301, 2).unwrap().to_text(), "-150.5");
    assert_eq!(Scalar::new(1, 8).unwrap().to_text(), "0.125");
    assert_eq!(Scalar::new(2, 4).unwrap().to_text(), "0.5");
    assert_eq!(Scalar::new(9999, 100).unwrap().to_text(), "99.99");
    assert_eq!(Scalar::new(1, 1000000).unwrap().to_text(), "0.000001");
    assert_eq!(Scalar::new(1000001, 1000000).unwrap().to_text(), "1.000001");
    assert_eq!(Scalar::new(15, 10).unwrap().to_text(), "1.5");
}

#[test]
fn scalar_text_is_rounded_at_the_sixth_place() {
    assert_eq!(Scalar::new(10, 3).unwrap().to_text(), "3.333333");
    assert_eq!(Scalar::new(2, 3).unwrap().to_text(), "0.666667");
    assert_eq!(Scalar::new(-1, 3).unwrap().to_text(), "-0.333333");
    assert_eq!(Scalar::new(-2, 3).unwrap().to_text(), "-0.666667");
    // A half of a millionth goes up, less than a half goes down.
    assert_eq!(Scalar::new(1, 2000000).unwrap().to_text(), "0.000001");
    assert_eq!(Scalar::new(-1, 2000000).unwrap().to_text(), "-0.000001");
    assert_eq!(Scalar::new(49, 100000000).unwrap().to_text(), "0");
    assert_eq!(Scalar::new(1, 10000000).unwrap().to_text(), "0");
    assert_eq!(Scalar::new(-1, 10000000).unwrap().to_text(), "0");
    // Rounding carries into the whole part.
    assert_eq!(Scalar::new(19999999, 10000000).unwrap().to_text(), "2");
    assert_eq!(Scalar::new(-9999996, 10000000).unwrap().to_text(), "-1");
    assert_eq!(Scalar::new(12345678, 10000000).unwrap().to_text(), "1.234568");
}

#[test]
fn scalar_text_of_a_binary_fraction_near_a_decimal() {
    // The double nearest to 99.99 is a little below it, and is shown as 99.99.
    let mut scaled = 99.99f64;
    let mut den: u64 = 1;
    while scaled.fract() != 0.0 {
        scaled *= 2.0;
        den *= 2;
    }
    let target = Scalar::new(scaled as i64, den).unwrap();
    assert!(target.less_than(&Scalar::new(9999, 100).unwrap()));
    assert_eq!(target.to_text(), "99.99");
}

#[test]
fn scalar_text_at_the_ends_of_the_range() {
    assert_eq!(Scalar::new(i64::MAX, u64::MAX).unwrap().to_text(), "0.5");
    assert_eq!(Scalar::new(i64::MIN, u64::MAX).unwrap().to_text(), "-0.5");
    assert_eq!(Scalar::new(i64::MAX, 2).unwrap().to_text(), "4611686018427387903.5");
    assert_eq!(Scalar::new(i64::MIN, 3).unwrap().to_text(), "-3074457345618258602.666667");
    assert_eq!(Scalar::new(1, u64::MAX).unwrap().to_text(), "0");
}

#[test]
fn equal_scalars_have_the_same_text() {
    assert_eq!(
        Scalar::new(2, 6).unwrap().to_text(),
        Scalar::new(1, 3).unwrap().to_text()
    );
    assert_eq!(
        Scalar::new(40, 2).unwrap().to_text(),
        Scalar::from_int(20).to_text()
    );
}
