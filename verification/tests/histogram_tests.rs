use loadgen::histogram::max_bucket_count;
use loadgen::histogram::LatencyHistogram;

#[test]
fn percentiles_of_one_to_ten() {
    let samples: Vec<u64> = (1..=10).collect();
    let h = LatencyHistogram::aggregate(&samples);
    assert_eq!(h.len(), 10);
    assert_eq!(h.percentile(50), 5);
    assert_eq!(h.percentile(90), 9);
    assert_eq!(h.percentile(99), 10);
    assert_eq!(h.percentile(100), 10);
    assert_eq!(h.max_value(), 10);
}

#[test]
fn percentile_rank_rounds_up() {
    let h = LatencyHistogram::aggregate(&vec![10, 20, 30, 40]);
    // Ranks: ceil(p * 4 / 100), at least 1.
    assert_eq!(h.percentile(0), 10);
    assert_eq!(h.percentile(25), 10);
    assert_eq!(h.percentile(26), 20);
    assert_eq!(h.percentile(50), 20);
    assert_eq!(h.percentile(51), 30);
    assert_eq!(h.percentile(90), 40);
    assert_eq!(h.percentile(99), 40);
    assert_eq!(h.percentile(100), 40);
}

#[test]
fn aggregate_sorts_arrival_order() {
    // Samples arrive in completion order, which is unconstrained.
    let h = LatencyHistogram::aggregate(&vec![500, 1, 30, 30, 2]);
    assert_eq!(h.percentile(0), 1);
    assert_eq!(h.percentile(50), 30);
    assert_eq!(h.max_value(), 500);
}

#[test]
fn record_keeps_duplicates() {
    let mut h = LatencyHistogram::new();
    h.record(5);
    h.record(5);
    h.record(5);
    assert_eq!(h.len(), 3);
    assert_eq!(h.percentile(50), 5);
    assert_eq!(h.max_value(), 5);
    assert_eq!(h.log_buckets(), vec![(8, 3)]);
}

#[test]
fn percentiles_are_monotone() {
    let h = LatencyHistogram::aggregate(&vec![3, 17, 4, 950, 212, 64, 4, 8]);
    let p50 = h.percentile(50);
    let p90 = h.percentile(90);
    let p99 = h.percentile(99);
    assert!(p50 <= p90);
    assert!(p90 <= p99);
    assert!(p99 <= h.max_value());
}

#[test]
fn queries_are_idempotent() {
    let h = LatencyHistogram::aggregate(&vec![9, 2, 47]);
    assert_eq!(h.percentile(50), h.percentile(50));
    assert_eq!(h.percentile(90), h.percentile(90));
    assert_eq!(h.max_value(), h.max_value());
    assert_eq!(h.log_buckets(), h.log_buckets());
}

#[test]
fn empty_histogram_queries_return_zero() {
    let h = LatencyHistogram::new();
    assert_eq!(h.len(), 0);
    assert_eq!(h.percentile(50), 0);
    assert_eq!(h.percentile(99), 0);
    assert_eq!(h.max_value(), 0);
    assert_eq!(h.log_buckets(), Vec::new());
    assert_eq!(h.linear_buckets(1), Vec::new());
}

#[test]
fn log_buckets_doubling_bounds() {
    // 0 and 1 share the first bucket; then (1,2], (2,4], ..., (512,1024].
    let h = LatencyHistogram::aggregate(&vec![0, 1, 2, 3, 1000]);
    assert_eq!(h.log_buckets(), vec![(1, 2), (2, 1), (4, 1), (1024, 1)]);
}

#[test]
fn log_buckets_skip_empty_buckets() {
    let h = LatencyHistogram::aggregate(&vec![1, 1024]);
    assert_eq!(h.log_buckets(), vec![(1, 1), (1024, 1)]);
}

#[test]
fn log_bucket_boundaries_are_inclusive_above() {
    // 1024 = 2^10 belongs to the bucket with upper bound 1024, 1025 to 2048.
    let h = LatencyHistogram::aggregate(&vec![1024, 1025]);
    assert_eq!(h.log_buckets(), vec![(1024, 1), (2048, 1)]);
}

#[test]
fn log_buckets_largest_value() {
    let h = LatencyHistogram::aggregate(&vec![u64::MAX]);
    assert_eq!(h.max_value(), u64::MAX);
    assert_eq!(h.log_buckets(), vec![(u64::MAX, 1)]);
}

#[test]
fn linear_buckets_fixed_width() {
    let h = LatencyHistogram::aggregate(&vec![100, 900, 1000, 2500]);
    assert_eq!(
        h.linear_buckets(1000),
        vec![(999, 2), (1999, 1), (2999, 1)]
    );
}

#[test]
fn linear_buckets_include_empty_buckets() {
    let h = LatencyHistogram::aggregate(&vec![100, 2500]);
    assert_eq!(
        h.linear_buckets(1000),
        vec![(999, 1), (1999, 0), (2999, 1)]
    );
}

#[test]
fn max_bucket_count_scales_bars() {
    let h = LatencyHistogram::aggregate(&vec![100, 150, 2500]);
    assert_eq!(max_bucket_count(&h.linear_buckets(1000)), 2);
    // With no buckets at all, the scale falls back to 1.
    assert_eq!(max_bucket_count(&Vec::new()), 1);
}

#[test]
fn linear_buckets_saturate_at_largest_upper_bound() {
    let h = LatencyHistogram::aggregate(&vec![u64::MAX]);
    assert_eq!(
        h.linear_buckets(u64::MAX),
        vec![(u64::MAX - 1, 0), (u64::MAX, 1)]
    );
}
