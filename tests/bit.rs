use kb::bit::bitvec_addition::{add, gzc};
use kb::bit::manipulation::{
    is_exp2_minus_one, is_power_of_two, set_rightmost_zero, set_trailing_zeros, unset_rightmost_one,
    unset_trailing_ones,
};

#[test]
fn test_add() {
    assert!(add(&[0], &[]).is_err());
    assert!(add(&[0], &[2]).is_err());

    assert_eq!(add(&[], &[]), Ok(vec![]));
    assert_eq!(add(&[1, 1, 1], &[1, 0, 1]), Ok(vec![0, 0, 1, 1]));
}

#[test]
fn test_gzc() {
    assert!(gzc(&[0], &[]).is_err());

    assert_eq!(gzc(&[], &[]), Ok(vec![0]));
    assert_eq!(gzc(&[1, 1, 1], &[1, 0, 0]), Ok(vec![1, 1, 0, 1]));
}

#[test]
fn add_reports_which_input_is_wrong() {
    assert_eq!(add(&[0, 1], &[1]), Err("Bit vector lengths differ"));
    assert_eq!(add(&[0, 3], &[1, 1]), Err("Bit vector does not contain bits"));
    assert_eq!(gzc(&[0, 1], &[1]), Err("Bit vector lengths differ"));
    assert_eq!(gzc(&[1, 0], &[7, 1]), Err("Bit vector does not contain bits"));
}

#[test]
fn add_without_final_carry_keeps_length() {
    // 2 + 1 = 3, least significant bit first
    assert_eq!(add(&[0, 1], &[1, 0]), Ok(vec![1, 1]));
    // most significant bit first in, least significant first out: 2 + 1 = 3
    assert_eq!(gzc(&[1, 0], &[0, 1]), Ok(vec![1, 1, 0]));
}

#[test]
fn bit_tricks_match_their_examples() {
    assert_eq!(unset_rightmost_one(0b_0101_1000), 0b_0101_0000);
    assert_eq!(set_rightmost_zero(0b_1010_0111), 0b_1010_1111);
    assert_eq!(unset_trailing_ones(0b_1010_0111), 0b_1010_0000);
    assert_eq!(set_trailing_zeros(0b_1010_1000), 0b_1010_1111);
    assert!(is_power_of_two(0b_0001_0000));
    assert!(!is_power_of_two(0b_0101_1000));
    assert!(is_exp2_minus_one(0b_0000_1111));
    assert!(!is_exp2_minus_one(0b_0101_1111));
}

#[test]
fn bit_tricks_at_the_ends_of_the_range() {
    assert_eq!(unset_rightmost_one(0), 0);
    assert_eq!(set_rightmost_zero(255), 255);
    assert_eq!(unset_trailing_ones(255), 0);
    assert_eq!(set_trailing_zeros(0), 255);
    assert!(is_power_of_two(0));
    assert!(is_power_of_two(128));
    assert!(is_exp2_minus_one(0));
    assert!(is_exp2_minus_one(255));
}
