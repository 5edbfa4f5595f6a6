use blake_bench::median::{median, median_ns, median_rate, sort_trials};
use std::cell::Cell;

#[test]
fn median_of_five_trials() {
    assert_eq!(median(&vec![5, 1, 3, 2, 4]), 3);
}

#[test]
fn median_of_four_trials_is_lower_middle() {
    assert_eq!(median(&vec![4, 1, 3, 2]), 2);
}

#[test]
fn median_of_one_and_two_trials() {
    assert_eq!(median(&vec![7]), 7);
    assert_eq!(median(&vec![9, 4]), 4);
    assert_eq!(median(&vec![4, 9]), 4);
}

#[test]
fn median_of_sorted_trials_is_the_middle_element() {
    assert_eq!(median(&vec![1, 2, 3, 4, 5]), 3);
    assert_eq!(median(&vec![1, 2, 3, 4]), 2);
    assert_eq!(median(&vec![10, 20, 30, 40, 50, 60, 70]), 40);
    assert_eq!(median(&vec![10, 20, 30, 40, 50, 60]), 30);
}

#[test]
fn median_with_repeated_and_extreme_values() {
    assert_eq!(median(&vec![2, 2, 2, 1, 1]), 2);
    assert_eq!(median(&vec![u128::MAX, 0, u128::MAX]), u128::MAX);
    assert_eq!(median(&vec![0, 0, u128::MAX, u128::MAX]), 0);
}

#[test]
fn median_ignores_the_order_of_trials() {
    assert_eq!(median(&vec![3, 1, 2]), median(&vec![2, 3, 1]));
    assert_eq!(median(&vec![8, 6, 7, 5]), median(&vec![5, 6, 7, 8]));
}

#[test]
fn sort_trials_sorts_ascending() {
    assert_eq!(sort_trials(&vec![5, 1, 3, 2, 4]), vec![1, 2, 3, 4, 5]);
    assert_eq!(sort_trials(&vec![4, 1, 3, 2]), vec![1, 2, 3, 4]);
    assert_eq!(sort_trials(&vec![2, 1, 2, 1]), vec![1, 1, 2, 2]);
    assert_eq!(sort_trials(&vec![]), Vec::<u128>::new());
}

#[test]
fn median_ns_runs_each_trial_once() {
    let values = [5u64, 1, 3, 2, 4];
    let next = Cell::new(0usize);
    let m = median_ns(
        || {
            let i = next.get();
            next.set(i + 1);
            values[i]
        },
        5,
    );
    assert_eq!(m, 3);
    assert_eq!(next.get(), 5);
}

#[test]
fn median_ns_of_even_trial_count() {
    let values = [4u64, 1, 3, 2];
    let next = Cell::new(0usize);
    let m = median_ns(
        || {
            let i = next.get();
            next.set(i + 1);
            values[i]
        },
        4,
    );
    assert_eq!(m, 2);
}

#[test]
fn median_ns_keeps_large_values() {
    assert_eq!(median_ns(|| u64::MAX, 3), u64::MAX);
    assert_eq!(median_ns(|| 42, 1), 42);
}

#[test]
fn median_rate_runs_each_trial_once() {
    let values = [1_500u128, 2_500, 500, 1_000];
    let next = Cell::new(0usize);
    let m = median_rate(
        || {
            let i = next.get();
            next.set(i + 1);
            values[i]
        },
        4,
    );
    assert_eq!(m, 1_000);
    assert_eq!(next.get(), 4);
}
