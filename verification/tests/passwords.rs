use aocrs::day4::{brute_force, rule_duplicate_digit, rule_increasing_digits};

#[test]
fn exactly_two_in_a_row() {
    assert!(rule_duplicate_digit(112233));
    assert!(!rule_duplicate_digit(123444));
    assert!(rule_duplicate_digit(111122));
    assert!(rule_duplicate_digit(11));
    assert!(!rule_duplicate_digit(111));
    assert!(rule_duplicate_digit(1122));
    assert!(rule_duplicate_digit(1233));
    assert!(rule_duplicate_digit(1223));
    assert!(!rule_duplicate_digit(12));
    assert!(!rule_duplicate_digit(1111111111));
    assert!(rule_duplicate_digit(1123456789));
    assert!(rule_duplicate_digit(2233445566));
}

#[test]
fn pairs_of_zeros_inside_a_number() {
    assert!(rule_duplicate_digit(100));
    assert!(rule_duplicate_digit(1002));
    assert!(rule_duplicate_digit(1001));
    assert!(!rule_duplicate_digit(10001));
    assert!(!rule_duplicate_digit(0));
    assert!(!rule_duplicate_digit(10));
    assert!(!rule_duplicate_digit(2));
}

#[test]
fn digits_never_decrease() {
    assert!(rule_increasing_digits(112233));
    assert!(rule_increasing_digits(123444));
    assert!(rule_increasing_digits(111122));
    assert!(rule_increasing_digits(0));
    assert!(rule_increasing_digits(2));
    assert!(rule_increasing_digits(12));
    assert!(rule_increasing_digits(99));
    assert!(rule_increasing_digits(3999999999));
    assert!(rule_increasing_digits(1111111111));
    assert!(!rule_increasing_digits(21));
    assert!(!rule_increasing_digits(10));
    assert!(!rule_increasing_digits(120));
    assert!(!rule_increasing_digits(223450));
    assert!(!rule_increasing_digits(1001));
}

#[test]
fn the_largest_numbers() {
    assert!(!rule_duplicate_digit(u32::MAX));
    assert!(!rule_increasing_digits(u32::MAX));
    assert!(!rule_duplicate_digit(u32::MAX - 1));
    assert!(!rule_increasing_digits(u32::MAX - 1));
    assert!(!rule_duplicate_digit(3999999999));
}

#[test]
fn counting_candidates() {
    assert_eq!(brute_force(0, 0), 0);
    assert_eq!(brute_force(11, 11), 1);
    assert_eq!(brute_force(10, 12), 1);
    assert_eq!(brute_force(0, 100), 9);
    assert_eq!(brute_force(100, 200), 16);
    assert_eq!(brute_force(1, 1000), 81);
    assert_eq!(brute_force(112233, 112233), 1);
    assert_eq!(brute_force(123444, 123444), 0);
}

#[test]
fn an_empty_range_holds_none() {
    assert_eq!(brute_force(5, 3), 0);
    assert_eq!(brute_force(u32::MAX, 0), 0);
    assert_eq!(brute_force(12, 11), 0);
}

#[test]
fn the_puzzle_range() {
    assert_eq!(brute_force(231832, 767346), 876);
}

#[test]
fn the_count_adds_up_over_adjoining_ranges() {
    let whole = brute_force(1000, 3000);
    let low = brute_force(1000, 1999);
    let high = brute_force(2000, 3000);
    assert_eq!(whole, low + high);
}

#[test]
fn the_top_of_the_range() {
    assert_eq!(brute_force(u32::MAX - 3, u32::MAX - 1), 0);
    assert_eq!(brute_force(3999999989, 3999999999), 0);
}
