use url_profiler::stats::aggregate_durations;
use url_profiler::stats::sort_durations;
use url_profiler::stats::ByteSizeRange;

#[test]
fn aggregates_three_durations() {
    // Samples 1, 2, 3: sum 6 over 3 samples (an average of exactly 2),
    // median the element at index 3 / 2 = 1 of the sorted list.
    let s = aggregate_durations(vec![1, 2, 3]);
    assert_eq!(s.sample_count, 3);
    assert_eq!(s.total, 6);
    assert_eq!(s.median, 2);
    assert_eq!(s.min, 1);
    assert_eq!(s.max, 3);
}

#[test]
fn aggregation_sorts_before_taking_the_median() {
    let s = aggregate_durations(vec![3, 1, 2]);
    assert_eq!(s.median, 2);
    assert_eq!(s.min, 1);
    assert_eq!(s.max, 3);
    assert_eq!(s.total, 6);
}

#[test]
fn even_length_median_is_the_upper_median() {
    // Four samples: the median is the element at index 4 / 2 = 2 of the
    // sorted list, with no interpolation.
    let s = aggregate_durations(vec![1, 2, 3, 4]);
    assert_eq!(s.median, 3);
    assert_eq!(s.min, 1);
    assert_eq!(s.max, 4);
}

#[test]
fn empty_sample_list_yields_sentinels() {
    let s = aggregate_durations(Vec::new());
    assert_eq!(s.sample_count, 0);
    assert_eq!(s.total, 0);
    assert_eq!(s.median, 0);
    assert_eq!(s.min, u64::MAX);
    assert_eq!(s.max, 0);
}

#[test]
fn microsecond_samples_sum_exactly() {
    let s = aggregate_durations(vec![1_000_000, 2_000_000, 3_000_000]);
    assert_eq!(s.total, 6_000_000);
    assert_eq!(s.sample_count, 3);
    assert_eq!(s.median, 2_000_000);
}

#[test]
fn sorting_orders_the_samples() {
    let mut v = vec![5, 3, 9, 3, 1];
    sort_durations(&mut v);
    assert_eq!(v, vec![1, 3, 3, 5, 9]);
}

#[test]
fn byte_sizes_track_running_min_and_max() {
    // One connect failure (no sample) and two reads of 50 and 80 bytes.
    let mut sizes = ByteSizeRange::new();
    sizes.record(50);
    sizes.record(80);
    assert_eq!(sizes.min_size, 50);
    assert_eq!(sizes.max_size, 80);
}

#[test]
fn byte_sizes_start_from_worst_case_sentinels() {
    let sizes = ByteSizeRange::new();
    assert_eq!(sizes.min_size, usize::MAX);
    assert_eq!(sizes.max_size, 0);
}
