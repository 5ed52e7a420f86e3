use tapegrad::fixed::Fixed;

const ONE: i64 = 1 << 32;

#[test]
fn whole_numbers_have_thirty_two_fraction_bits() {
    assert_eq!(Fixed::one().raw(), ONE);
    assert_eq!(Fixed::zero().raw(), 0);
    assert_eq!(Fixed::from_int(3).raw(), 3 * ONE);
    assert_eq!(Fixed::from_int(-7).raw(), -7 * ONE);
    assert_eq!(Fixed::from_count(12).raw(), 12 * ONE);
    assert_eq!(Fixed::from_raw(5).raw(), 5);
}

#[test]
fn whole_numbers_saturate() {
    assert_eq!(Fixed::from_int(i64::MAX).raw(), i64::MAX);
    assert_eq!(Fixed::from_int(i64::MIN).raw(), i64::MIN);
    assert_eq!(Fixed::from_int(1 << 31).raw(), i64::MAX);
    assert_eq!(Fixed::from_count(usize::MAX).raw(), i64::MAX);
}

#[test]
fn sums_and_differences_saturate() {
    let big = Fixed::from_raw(i64::MAX);
    let small = Fixed::from_raw(i64::MIN);
    assert_eq!(big.plus(Fixed::one()).raw(), i64::MAX);
    assert_eq!(small.minus(Fixed::one()).raw(), i64::MIN);
    assert_eq!(small.plus(big).raw(), -1);
    assert_eq!(Fixed::from_int(2).plus(Fixed::from_int(3)).raw(), 5 * ONE);
    assert_eq!(Fixed::from_int(2).minus(Fixed::from_int(3)).raw(), -ONE);
}

#[test]
fn negation_saturates_at_the_lowest_number() {
    assert_eq!(Fixed::from_raw(i64::MIN).neg().raw(), i64::MAX);
    assert_eq!(Fixed::from_int(4).neg().raw(), -4 * ONE);
    assert_eq!(Fixed::from_int(-4).neg().raw(), 4 * ONE);
}

#[test]
fn products_are_exact_where_they_fit() {
    let a = Fixed::from_raw(3 * ONE / 2);
    let b = Fixed::from_raw(5 * ONE / 2);
    assert_eq!(a.times(b).raw(), 16106127360);
    assert_eq!(a.neg().times(b).raw(), -16106127360);
    assert_eq!(a.neg().times(b.neg()).raw(), 16106127360);
}

#[test]
fn products_round_toward_zero() {
    let half = Fixed::from_raw(ONE / 2);
    assert_eq!(Fixed::from_raw(1).times(Fixed::from_raw(1)).raw(), 0);
    assert_eq!(Fixed::from_raw(-1).times(Fixed::from_raw(1)).raw(), 0);
    assert_eq!(Fixed::from_raw(3).times(half).raw(), 1);
    assert_eq!(Fixed::from_raw(-3).times(half).raw(), -1);
}

#[test]
fn products_saturate() {
    let big = Fixed::from_int(1 << 20);
    assert_eq!(big.times(big).raw(), i64::MAX);
    assert_eq!(big.times(big.neg()).raw(), i64::MIN);
    assert_eq!(Fixed::from_raw(i64::MIN).times(Fixed::from_raw(i64::MIN)).raw(), i64::MAX);
}

#[test]
fn quotients_round_toward_zero() {
    let three = Fixed::from_int(3);
    assert_eq!(Fixed::one().over(three).raw(), 1431655765);
    assert_eq!(Fixed::one().neg().over(three).raw(), -1431655765);
    assert_eq!(Fixed::from_int(6).over(three).raw(), 2 * ONE);
    assert_eq!(Fixed::from_int(6).over(three.neg()).raw(), -2 * ONE);
}

#[test]
fn division_by_zero_saturates_by_sign() {
    let zero = Fixed::zero();
    assert_eq!(Fixed::one().over(zero).raw(), i64::MAX);
    assert_eq!(Fixed::one().neg().over(zero).raw(), i64::MIN);
    assert_eq!(zero.over(zero).raw(), 0);
}

#[test]
fn quotients_saturate() {
    let tiny = Fixed::from_raw(1);
    assert_eq!(Fixed::from_int(1 << 30).over(tiny).raw(), i64::MAX);
    assert_eq!(Fixed::from_int(-(1 << 30)).over(tiny).raw(), i64::MIN);
}

#[test]
fn ratios_are_quotients_of_whole_numbers() {
    assert_eq!(Fixed::from_ratio(9, 10).raw(), 3865470566);
    assert_eq!(Fixed::from_ratio(999, 1000).raw(), 4290672328);
    assert_eq!(Fixed::from_ratio(5, 100).raw(), 214748364);
    assert_eq!(Fixed::from_ratio(1, 100000000).raw(), 42);
    assert_eq!(Fixed::from_ratio(1, 0).raw(), i64::MAX);
}

#[test]
fn square_roots_round_down() {
    assert_eq!(Fixed::from_int(4).sqrt().raw(), 2 * ONE);
    assert_eq!(Fixed::from_int(2).sqrt().raw(), 6074000999);
    assert_eq!(Fixed::from_raw(ONE / 4).sqrt().raw(), ONE / 2);
    assert_eq!(Fixed::from_raw(1).sqrt().raw(), 65536);
    assert_eq!(Fixed::from_raw(i64::MAX).sqrt().raw(), 199032864766430);
}

#[test]
fn square_roots_of_what_is_not_positive_are_zero() {
    assert_eq!(Fixed::zero().sqrt().raw(), 0);
    assert_eq!(Fixed::from_int(-9).sqrt().raw(), 0);
}

#[test]
fn powers_multiply_up_from_the_left() {
    let two = Fixed::from_int(2);
    assert_eq!(two.pow(0).raw(), ONE);
    assert_eq!(two.pow(1).raw(), 2 * ONE);
    assert_eq!(two.pow(10).raw(), 1024 * ONE);
    assert_eq!(Fixed::from_int(-3).pow(3).raw(), -27 * ONE);
    assert_eq!(two.pow(40).raw(), i64::MAX);
    assert_eq!(Fixed::from_ratio(9, 10).pow(2).raw(), 3478923509);
}
