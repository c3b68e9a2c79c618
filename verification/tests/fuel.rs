use aocrs::calculate_total_fuel;
use aocrs::day1::{calculate_fuel, naive_calculate_fuel, total_fuel_fits};

#[test]
fn test_naive_calculate_fuel() {
    assert_eq!(naive_calculate_fuel(12), 2);
    assert_eq!(naive_calculate_fuel(14), 2);
    assert_eq!(naive_calculate_fuel(1969), 654);
    assert_eq!(naive_calculate_fuel(100756), 33583);
}

#[test]
fn test_negative_fuel() {
    assert_eq!(naive_calculate_fuel(0), 0);
    assert_eq!(naive_calculate_fuel(1), 0);
    assert_eq!(naive_calculate_fuel(2), 0);
    assert_eq!(naive_calculate_fuel(3), 0);
}

#[test]
fn test_calculate_fuel() {
    assert_eq!(calculate_fuel(14), 2);
    assert_eq!(calculate_fuel(1969), 966);
    assert_eq!(calculate_fuel(100756), 50346);
}

#[test]
fn naive_fuel_at_the_threshold() {
    assert_eq!(naive_calculate_fuel(5), 0);
    assert_eq!(naive_calculate_fuel(6), 0);
    assert_eq!(naive_calculate_fuel(8), 0);
    assert_eq!(naive_calculate_fuel(9), 1);
    assert_eq!(naive_calculate_fuel(u32::MAX), 1431655763);
}

#[test]
fn fuel_of_small_masses_is_naive() {
    assert_eq!(calculate_fuel(0), 0);
    assert_eq!(calculate_fuel(9), 1);
    assert_eq!(calculate_fuel(12), 2);
    assert_eq!(calculate_fuel(33), 9 + 1);
}

#[test]
fn total_fuel_sums_each_module() {
    assert_eq!(calculate_total_fuel(&vec![]), 0);
    assert_eq!(calculate_total_fuel(&vec![14]), 2);
    assert_eq!(calculate_total_fuel(&vec![14, 1969, 100756]), 2 + 966 + 50346);
    assert_eq!(calculate_total_fuel(&vec![0, 1, 2, 100756]), 50346);
}

#[test]
fn totals_that_fit_and_totals_that_do_not() {
    assert!(total_fuel_fits(&vec![]));
    assert!(total_fuel_fits(&vec![14, 1969, 100756]));
    assert_eq!(calculate_fuel(u32::MAX), 2147483579);
    assert!(total_fuel_fits(&vec![u32::MAX]));
    assert!(total_fuel_fits(&vec![u32::MAX, 0, 5]));
    assert!(!total_fuel_fits(&vec![u32::MAX, u32::MAX, u32::MAX]));
    // Two modules of the greatest mass leave room for 137 more.
    assert!(total_fuel_fits(&vec![u32::MAX, u32::MAX]));
    assert_eq!(calculate_total_fuel(&vec![u32::MAX, u32::MAX]), 4294967158);
    assert_eq!(calculate_fuel(300), 136);
    assert_eq!(calculate_fuel(303), 138);
    assert!(total_fuel_fits(&vec![u32::MAX, u32::MAX, 300]));
    assert!(!total_fuel_fits(&vec![u32::MAX, u32::MAX, 303]));
    assert!(total_fuel_fits(&vec![u32::MAX, u32::MAX, 300, 9]));
    assert_eq!(
        calculate_total_fuel(&vec![u32::MAX, u32::MAX, 300, 9]),
        u32::MAX
    );
    assert!(!total_fuel_fits(&vec![u32::MAX, u32::MAX, 300, 12]));
    assert!(!total_fuel_fits(&vec![u32::MAX, 303, u32::MAX, 0]));
}
