use universalis_alerts::fraction::greatest_common_divisor;
use universalis_alerts::scalar::Scalar;

#[test]
fn equal_fractions_compare_equal() {
    let half = Scalar::new(1, 2).unwrap();
    let two_quarters = Scalar::new(2, 4).unwrap();
    assert!(half == two_quarters);
    assert!(half != Scalar::from_int(1));
    assert!(Scalar::new(60, 3).unwrap() == Scalar::from_int(20));
    assert!(Scalar::new(-9, 3).unwrap() == Scalar::from_int(-3));
}

#[test]
fn zero_denominator_is_refused() {
    assert!(Scalar::new(5, 0).is_none());
    assert!(Scalar::new(0, 0).is_none());
}

#[test]
fn parts_are_kept_as_given() {
    let s = Scalar::new(6, 4).unwrap();
    assert_eq!(s.numerator(), 6);
    assert_eq!(s.denominator(), 4);
    let whole = Scalar::from_int(-7);
    assert_eq!(whole.numerator(), -7);
    assert_eq!(whole.denominator(), 1);
}

#[test]
fn fractions_are_ordered_by_value() {
    let third = Scalar::new(1, 3).unwrap();
    let half = Scalar::new(1, 2).unwrap();
    assert!(third.less_than(&half));
    assert!(!half.less_than(&third));
    assert!(half.greater_than(&third));
    assert!(!third.greater_than(&half));
    assert!(Scalar::new(-1, 2).unwrap().less_than(&third));
    assert!(!half.less_than(&half));
    assert!(!half.greater_than(&half));
    assert!(!half.less_than(&Scalar::new(2, 4).unwrap()));
}

#[test]
fn order_holds_at_the_ends_of_the_range() {
    let least = Scalar::new(i64::MIN, 1).unwrap();
    let greatest = Scalar::new(i64::MAX, 1).unwrap();
    let tiny = Scalar::new(1, u64::MAX).unwrap();
    let tiny_below = Scalar::new(-1, u64::MAX).unwrap();
    assert!(least.less_than(&greatest));
    assert!(greatest.greater_than(&least));
    assert!(tiny_below.less_than(&tiny));
    assert!(tiny.less_than(&greatest));
    assert!(least.less_than(&tiny_below));
    assert!(Scalar::from_int(0).less_than(&tiny));
    assert!(least == Scalar::new(i64::MIN, 1).unwrap());
}

#[test]
fn greatest_common_divisor_of_known_pairs() {
    assert_eq!(greatest_common_divisor(12, 18), 6);
    assert_eq!(greatest_common_divisor(18, 12), 6);
    assert_eq!(greatest_common_divisor(7, 13), 1);
    assert_eq!(greatest_common_divisor(0, 5), 5);
    assert_eq!(greatest_common_divisor(5, 0), 5);
    assert_eq!(greatest_common_divisor(0, 0), 0);
    assert_eq!(greatest_common_divisor(9, 9), 9);
}

#[test]
fn running_mean_of_whole_samples() {
    // Two samples with the mean 15, and a third sample 30: the mean is 20.
    let mean = Scalar::new(30, 2).unwrap();
    let next = mean.running_mean(2, &Scalar::from_int(30));
    assert_eq!(next.numerator(), 60);
    assert_eq!(next.denominator(), 3);
    assert!(next == Scalar::from_int(20));
}

#[test]
fn running_mean_cancels_the_shared_factor() {
    // Four samples with the mean 3/2 and a fifth sample 1/3:
    // (4 * 3/2 + 1/3) / 5 = 19/15, with 2 cancelled from 4 and from 2.
    let mean = Scalar::new(3, 2).unwrap();
    let item = Scalar::new(1, 3).unwrap();
    let next = mean.running_mean(4, &item);
    assert_eq!(next.numerator(), 19);
    assert_eq!(next.denominator(), 15);
}

#[test]
fn running_mean_of_one_sample_is_the_midpoint() {
    let next = Scalar::from_int(10).running_mean(1, &Scalar::from_int(20));
    assert!(next == Scalar::from_int(15));
    assert_eq!(next.numerator(), 30);
    assert_eq!(next.denominator(), 2);
}

#[test]
fn running_mean_with_negative_samples() {
    let next = Scalar::from_int(-10).running_mean(1, &Scalar::from_int(5));
    assert!(next == Scalar::new(-5, 2).unwrap());
}

#[test]
fn fraction_converts_to_the_expected_float() {
    let mean = Scalar::new(30, 2).unwrap().running_mean(2, &Scalar::from_int(30));
    let as_float = mean.numerator() as f64 / mean.denominator() as f64;
    assert_eq!(as_float, 20.0);
}

#[test]
fn running_mean_is_taken_where_it_fits() {
    let mean = Scalar::new(30, 2).unwrap();
    let item = Scalar::from_int(30);
    assert!(mean.can_take(2, &item));
    let next = mean.checked_running_mean(2, &item).unwrap();
    assert_eq!(next.numerator(), 60);
    assert_eq!(next.denominator(), 3);
}

#[test]
fn running_mean_is_refused_where_it_does_not_fit() {
    let one = Scalar::from_int(1);
    // No samples, or more than 32 bits count.
    assert!(!one.can_take(0, &one));
    assert!(one.checked_running_mean(0, &one).is_none());
    assert!(!one.can_take(u32::MAX as u64 + 1, &one));
    assert!(one.can_take(u32::MAX as u64, &one));
    // A denominator of more than 32 bits.
    let fine = Scalar::new(1, u32::MAX as u64 + 1).unwrap();
    assert!(!fine.can_take(1, &one));
    assert!(!one.can_take(1, &fine));
    assert!(one.checked_running_mean(1, &fine).is_none());
    // A numerator that leaves 64 bits.
    let great = Scalar::from_int(i64::MAX);
    assert!(!great.can_take(1, &great));
    assert!(great.checked_running_mean(1, &great).is_none());
    let least = Scalar::from_int(i64::MIN);
    assert!(!least.can_take(1, &least));
    // One that just stays within them.
    assert!(great.can_take(1, &Scalar::from_int(0)));
    let half = great.checked_running_mean(1, &Scalar::from_int(0)).unwrap();
    assert_eq!(half.numerator(), i64::MAX);
    assert_eq!(half.denominator(), 2);
}

#[test]
fn running_mean_with_a_great_denominator_that_cancels() {
    // The mean of 4294967295 samples over the denominator 4294967295.
    let n = u32::MAX as u64;
    let mean = Scalar::new(7, n).unwrap();
    let next = mean.checked_running_mean(n, &Scalar::from_int(1)).unwrap();
    assert_eq!(next.numerator(), 8);
    assert_eq!(next.denominator(), n + 1);
}
