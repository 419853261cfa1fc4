use rustforge::stats::{dedup_sorted, max_value, sum};

#[test]
fn sum_is_correct() {
    assert_eq!(sum(&[1, 2, 3, 4]), 10);
}

#[test]
fn max_value_finds_the_largest_element() {
    assert_eq!(max_value(&[3, 1, 4, 1, 5, 9, 2, 6]), Some(9));
    assert_eq!(max_value(&[]), None);
    assert_eq!(max_value(&[42]), Some(42));
}

#[test]
fn dedup_sorted_removes_consecutive_duplicates() {
    assert_eq!(dedup_sorted(&[1, 1, 2, 2, 2, 3]), vec![1, 2, 3]);
    assert_eq!(dedup_sorted(&[]), Vec::<u64>::new());
    assert_eq!(dedup_sorted(&[1, 2, 3]), vec![1, 2, 3]);
    assert_eq!(dedup_sorted(&[7, 7, 7]), vec![7]);
}

#[test]
fn sum_of_parts_is_sum_of_whole() {
    let a = [5u64, 6, 7];
    let b = [100u64, u64::MAX - 200];
    let whole: Vec<u64> = a.iter().chain(b.iter()).copied().collect();
    assert_eq!(sum(&whole), sum(&a) + sum(&b));
    assert_eq!(sum(&[]), 0);
    assert_eq!(sum(&[u64::MAX]), u64::MAX);
}

#[test]
fn sum_and_dedup_on_large_inputs() {
    let data = vec![1u64; 100_000];
    assert_eq!(sum(&data), 100_000);
    let sorted: Vec<u64> = (0..100_000u64).map(|n| n / 4).collect();
    assert_eq!(dedup_sorted(&sorted).len(), 25_000);
}

#[test]
fn dedup_only_collapses_adjacent_runs() {
    let unsorted = [3u64, 3, 1, 3, 1, 1];
    let once = dedup_sorted(&unsorted);
    assert_eq!(once, vec![3, 1, 3, 1]);
    assert_eq!(dedup_sorted(&once), once);
    for w in once.windows(2) {
        assert_ne!(w[0], w[1]);
    }
    let sorted = [0u64, 0, 1, 5, 5, 5, 9];
    let d = dedup_sorted(&sorted);
    assert_eq!(d, vec![0, 1, 5, 9]);
    assert!(d.windows(2).all(|w| w[0] < w[1]));
}

#[test]
fn max_value_on_ties_and_extremes() {
    assert_eq!(max_value(&[2, 2, 2]), Some(2));
    assert_eq!(max_value(&[0, u64::MAX, 1]), Some(u64::MAX));
    assert_eq!(max_value(&[0]), Some(0));
}
