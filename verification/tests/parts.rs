use compile_time_sort::permutation::swap;
use compile_time_sort::{
    insertion_sort_range, median_of_three, partition, quicksort_range, SortKey,
};

fn next_random(state: &mut u64) -> u64 {
    *state = state.wrapping_add(0x9E37_79B9_7F4A_7C15);
    let mut z = *state;
    z = (z ^ (z >> 30)).wrapping_mul(0xBF58_476D_1CE4_E5B9);
    z = (z ^ (z >> 27)).wrapping_mul(0x94D0_49BB_1331_11EB);
    z ^ (z >> 31)
}

#[test]
fn comparisons_of_integers() {
    assert!(3i32.greater_than(&2));
    assert!(!2i32.greater_than(&2));
    assert!(!(-1i32).greater_than(&0));
    assert!(2u64.less_or_equal(&2));
    assert!(1u64.less_or_equal(&2));
    assert!(!3u64.less_or_equal(&2));
    assert!('b'.greater_than(&'a'));
    assert!('a'.less_or_equal(&'a'));
}

#[test]
fn comparisons_of_bools() {
    assert!(true.greater_than(&false));
    assert!(!false.greater_than(&true));
    assert!(!true.greater_than(&true));
    assert!(!false.greater_than(&false));
    assert!(false.less_or_equal(&true));
    assert!(false.less_or_equal(&false));
    assert!(true.less_or_equal(&true));
    assert!(!true.less_or_equal(&false));
}

#[test]
fn swap_exchanges_two_values() {
    let mut values = [10, 20, 30, 40];
    swap(&mut values, 0, 3);
    assert_eq!(values, [40, 20, 30, 10]);
    swap(&mut values, 2, 2);
    assert_eq!(values, [40, 20, 30, 10]);
}

#[test]
fn median_of_three_picks_the_middle_key() {
    // The candidates are the two ends and the midpoint, here positions 0, 2 and 4.
    assert_eq!(median_of_three(&[1, 0, 2, 0, 3], 0, 4), 2);
    assert_eq!(median_of_three(&[1, 0, 3, 0, 2], 0, 4), 4);
    assert_eq!(median_of_three(&[2, 0, 1, 0, 3], 0, 4), 0);
    assert_eq!(median_of_three(&[2, 0, 3, 0, 1], 0, 4), 0);
    assert_eq!(median_of_three(&[3, 0, 1, 0, 2], 0, 4), 4);
    assert_eq!(median_of_three(&[3, 0, 2, 0, 1], 0, 4), 2);
}

#[test]
fn median_of_three_within_a_range() {
    let values = [9, 9, 5, 7, 6, 9, 9];
    let m = median_of_three(&values, 2, 4);
    assert_eq!(m, 4);
    let single = median_of_three(&values, 3, 3);
    assert_eq!(single, 3);
    let pair = median_of_three(&values, 2, 3);
    assert_eq!(values[pair], 5);
}

#[test]
fn median_of_three_with_ties() {
    let values = [4, 0, 4, 0, 1];
    assert_eq!(values[median_of_three(&values, 0, 4)], 4);
    let values = [1, 0, 4, 0, 4];
    assert_eq!(values[median_of_three(&values, 0, 4)], 4);
    let values = [4, 0, 1, 0, 4];
    assert_eq!(values[median_of_three(&values, 0, 4)], 4);
    let values = [2, 0, 2, 0, 2];
    assert_eq!(values[median_of_three(&values, 0, 4)], 2);
}

fn check_partition(values: &mut [i32], left: usize, right: usize) {
    let before = values.to_vec();
    let mid = left + (right - left) / 2;
    let mut candidates = [before[left], before[mid], before[right]];
    candidates.sort();
    let p = partition(values, left, right);
    assert!(left <= p && p <= right);
    assert_eq!(values[p], candidates[1]);
    for k in left..p {
        assert!(values[k] <= values[p]);
    }
    for k in p + 1..=right {
        assert!(values[p] <= values[k]);
    }
    assert_eq!(values[..left], before[..left]);
    assert_eq!(values[right + 1..], before[right + 1..]);
    let mut now = values[left..=right].to_vec();
    let mut then = before[left..=right].to_vec();
    now.sort();
    then.sort();
    assert_eq!(now, then);
}

#[test]
fn partition_splits_around_the_median_of_three() {
    let mut values = [5, 1, 9, 3, 7, 2, 8, 4, 6, 0, 5];
    check_partition(&mut values, 0, 10);
    let mut values = [0, 1, 2, 3, 4, 5, 6, 7, 8, 9, 10, 11];
    check_partition(&mut values, 0, 11);
    let mut values = [11, 10, 9, 8, 7, 6, 5, 4, 3, 2, 1, 0];
    check_partition(&mut values, 0, 11);
    let mut values = [1, 2];
    check_partition(&mut values, 0, 1);
    let mut values = [2, 1];
    check_partition(&mut values, 0, 1);
    let mut values = [3];
    check_partition(&mut values, 0, 0);
}

#[test]
fn partition_of_equal_keys_meets_in_the_middle() {
    let mut values = [7; 21];
    let p = partition(&mut values, 0, 20);
    assert_eq!(p, 10);
    assert_eq!(values, [7; 21]);
}

#[test]
fn partition_of_a_sorted_range_rests_on_the_midpoint() {
    let mut values = [0, 1, 2, 3, 4, 5, 6, 7, 8];
    let p = partition(&mut values, 0, 8);
    assert_eq!(p, 4);
    assert_eq!(values, [0, 1, 2, 3, 4, 5, 6, 7, 8]);
}

#[test]
fn partition_of_random_ranges() {
    let mut state: u64 = 2024;
    for round in 0..200 {
        let len = 1 + (next_random(&mut state) % 60) as usize;
        let mut values: Vec<i32> = Vec::new();
        for _ in 0..len {
            values.push((next_random(&mut state) % 16) as i32);
        }
        let left = (next_random(&mut state) as usize) % len;
        let right = left + (next_random(&mut state) as usize) % (len - left);
        check_partition(&mut values, left, right);
        assert!(round < 200);
    }
}

#[test]
fn insertion_sort_range_leaves_the_rest_alone() {
    let mut values = [9, 8, 7, 6, 5, 4, 3, 2, 1, 0];
    insertion_sort_range(&mut values, 2, 6);
    assert_eq!(values, [9, 8, 3, 4, 5, 6, 7, 2, 1, 0]);
    insertion_sort_range(&mut values, 0, 0);
    assert_eq!(values, [9, 8, 3, 4, 5, 6, 7, 2, 1, 0]);
    insertion_sort_range(&mut values, 0, 9);
    assert_eq!(values, [0, 1, 2, 3, 4, 5, 6, 7, 8, 9]);
}

#[test]
fn quicksort_range_leaves_the_rest_alone() {
    let mut values: Vec<i32> = (0..100).rev().collect();
    quicksort_range(&mut values, 10, 89);
    let mut expected: Vec<i32> = (90..100).rev().collect();
    expected.extend(10..90);
    expected.extend((0..10).rev());
    assert_eq!(values, expected);
    quicksort_range(&mut values, 99, 99);
    assert_eq!(values, expected);
}

#[test]
fn quicksort_range_on_short_ranges() {
    let mut values = [3, 2, 1];
    quicksort_range(&mut values, 0, 2);
    assert_eq!(values, [1, 2, 3]);
    let mut values = [2, 1];
    quicksort_range(&mut values, 0, 1);
    assert_eq!(values, [1, 2]);
}
