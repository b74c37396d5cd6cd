use rust_macros_analyzer::data::{calculate_statistics, check_sorted, count_occurrences, statistics};

#[test]
fn modes_median_and_mean_of_a_sample() {
    let stats = calculate_statistics(vec![1, 1, 2, 2, 3]);
    assert_eq!(stats.mode, vec![1, 2]);
    assert_eq!(stats.median_low, 2);
    assert_eq!(stats.median_high, 2);
    let median = (stats.median_low as f64 + stats.median_high as f64) / 2.0;
    assert_eq!(median, 2.0);
    assert_eq!(stats.sum, 9);
    assert_eq!(stats.count, 5);
    let mean = stats.sum as f64 / stats.count as f64;
    assert!((mean - 1.8).abs() < 1e-12);
    assert_eq!(stats.max, 3);
    assert_eq!(stats.sorted_data, vec![1, 1, 2, 2, 3]);
}

#[test]
fn median_of_an_even_number_of_samples() {
    let stats = calculate_statistics(vec![1, 2, 4, 10]);
    assert_eq!(stats.median_low, 2);
    assert_eq!(stats.median_high, 4);
    let median = (stats.median_low as f64 + stats.median_high as f64) / 2.0;
    assert_eq!(median, 3.0);
    assert_eq!(stats.mode, vec![1, 2, 4, 10]);
    assert_eq!(stats.max, 10);
    assert_eq!(stats.sum, 17);
}

#[test]
fn a_single_sample() {
    let stats = calculate_statistics(vec![7]);
    assert_eq!(stats.mode, vec![7]);
    assert_eq!(stats.median_low, 7);
    assert_eq!(stats.median_high, 7);
    assert_eq!(stats.max, 7);
    assert_eq!(stats.sum, 7);
    assert_eq!(stats.count, 1);
}

#[test]
fn a_single_mode() {
    let stats = calculate_statistics(vec![0, 1, 1, 1, 2, 2, 5]);
    assert_eq!(stats.mode, vec![1]);
    assert_eq!(stats.median_low, 1);
    assert_eq!(stats.median_high, 1);
    assert_eq!(stats.max, 5);
}

#[test]
fn the_sum_does_not_overflow() {
    let stats = calculate_statistics(vec![usize::MAX, usize::MAX]);
    assert_eq!(stats.sum, 2 * (usize::MAX as u128));
    assert_eq!(stats.mode, vec![usize::MAX]);
}

#[test]
fn statistics_need_sorted_samples() {
    assert!(statistics(vec![]).is_none());
    assert!(statistics(vec![2, 1]).is_none());
    let stats = statistics(vec![1, 2, 2]).unwrap();
    assert_eq!(stats.mode, vec![2]);
    assert!(check_sorted(&vec![]));
    assert!(check_sorted(&vec![3]));
    assert!(check_sorted(&vec![1, 1, 2]));
    assert!(!check_sorted(&vec![1, 3, 2]));
}

#[test]
fn occurrences_are_counted() {
    let data = vec![1, 2, 2, 3, 2];
    assert_eq!(count_occurrences(&data, 2), 3);
    assert_eq!(count_occurrences(&data, 1), 1);
    assert_eq!(count_occurrences(&data, 9), 0);
}
