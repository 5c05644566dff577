use farming::permill::Permill;
use farming::wide::mul_div;

#[test]
fn mul_div_divides_the_exact_product() {
    assert_eq!(mul_div(6, 7, 3), Some(14));
    assert_eq!(mul_div(50, 50, 100), Some(25));
}

#[test]
fn mul_div_rounds_down() {
    assert_eq!(mul_div(10, 10, 3), Some(33));
    assert_eq!(mul_div(1, 1, 2), Some(0));
}

#[test]
fn mul_div_by_zero_is_zero() {
    assert_eq!(mul_div(5, 5, 0), Some(0));
    assert_eq!(mul_div(0, 0, 0), Some(0));
}

#[test]
fn mul_div_keeps_a_product_beyond_128_bits() {
    assert_eq!(mul_div(u128::MAX, u128::MAX, u128::MAX), Some(u128::MAX));
    assert_eq!(mul_div(1 << 100, 1 << 100, 1 << 80), Some(1 << 120));
    assert_eq!(mul_div(u128::MAX, 3, 3), Some(u128::MAX));
}

#[test]
fn mul_div_reports_a_quotient_beyond_128_bits() {
    assert_eq!(mul_div(u128::MAX, 2, 1), None);
    assert_eq!(mul_div(1 << 100, 1 << 100, 1), None);
}

#[test]
fn mul_div_is_not_one_of_its_arguments() {
    assert_eq!(mul_div(9, 5, 2), Some(22));
}

#[test]
fn permill_constructors_cap_at_one_whole() {
    assert_eq!(Permill::from_parts(250_000).parts, 250_000);
    assert_eq!(Permill::from_parts(2_000_000).parts, 1_000_000);
    assert_eq!(Permill::from_percent(50).parts, 500_000);
    assert_eq!(Permill::from_percent(150).parts, 1_000_000);
    assert_eq!(Permill::zero().parts, 0);
    assert_eq!(Permill::one().parts, 1_000_000);
    assert_eq!(Permill { parts: 4_000_000 }.deconstruct(), 1_000_000);
    assert_eq!(Permill::from_percent(1).deconstruct(), 10_000);
}

#[test]
fn permill_times_rounds_to_the_nearest() {
    assert_eq!(Permill::from_percent(34).times(10), 3);
    assert_eq!(Permill::from_percent(36).times(10), 4);
    assert_eq!(Permill::from_parts(333_333).times(1_000), 333);
    assert_eq!(Permill::from_parts(1).times(1_500_001), 2);
}

#[test]
fn permill_times_rounds_a_tie_down() {
    assert_eq!(Permill::from_percent(50).times(1), 0);
    assert_eq!(Permill::from_percent(50).times(3), 1);
    assert_eq!(Permill::from_percent(50).times(7), 3);
    assert_eq!(Permill::from_parts(1).times(1_500_000), 1);
}

#[test]
fn permill_times_does_not_overflow() {
    assert_eq!(Permill::one().times(u128::MAX), u128::MAX);
    assert_eq!(
        Permill::from_percent(25).times(u128::MAX),
        85070591730234615865843651857942052864
    );
    assert_eq!(Permill::zero().times(u128::MAX), 0);
}

#[test]
fn permill_times_treats_too_many_parts_as_one_whole() {
    assert_eq!(Permill { parts: 3_000_000 }.times(77), 77);
}

#[test]
fn permill_from_rational_rounds_down() {
    assert_eq!(Permill::from_rational(1, 3).parts, 333_333);
    assert_eq!(Permill::from_rational(2, 3).parts, 666_666);
    assert_eq!(Permill::from_rational(989, 1_000).parts, 989_000);
    assert_eq!(Permill::from_rational(1, 3_000_000).parts, 0);
    assert_eq!(Permill::from_rational(0, 5).parts, 0);
}

#[test]
fn permill_from_rational_saturates_at_one_whole() {
    assert_eq!(Permill::from_rational(2, 2).parts, 1_000_000);
    assert_eq!(Permill::from_rational(7, 5).parts, 1_000_000);
    assert_eq!(Permill::from_rational(5, 0).parts, 1_000_000);
    assert_eq!(Permill::from_rational(u128::MAX, u128::MAX).parts, 1_000_000);
}

#[test]
fn permill_from_rational_takes_large_amounts() {
    assert_eq!(Permill::from_rational(u128::MAX / 4, u128::MAX).parts, 249_999);
    assert_eq!(Permill::from_rational(1u128 << 126, 1u128 << 127).parts, 500_000);
}
