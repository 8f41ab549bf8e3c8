//! The adaptive heartbeat interval.

use price_oracle::heartbeat::compute_adaptive_interval;

#[test]
fn test_adaptive_interval_zero_misses() {
    // base * (window + 0) / window = base * 1 = base
    assert_eq!(compute_adaptive_interval(3600, 0, 10), 3600);
}

#[test]
fn test_adaptive_interval_partial_misses() {
    // base * (10 + 5) / 10 = base * 1 (integer division)
    assert_eq!(compute_adaptive_interval(3600, 5, 10), 3600);
    // base * (10 + 10) / 10 = base * 2
    assert_eq!(compute_adaptive_interval(3600, 10, 10), 7200);
}

#[test]
fn test_adaptive_interval_capped_at_3x() {
    // Even with many misses, should never exceed 3x
    assert_eq!(compute_adaptive_interval(3600, 100, 10), 10800);
    assert_eq!(compute_adaptive_interval(3600, 1000, 10), 10800);
}

#[test]
fn test_adaptive_interval_zero_window_safe() {
    // window = 0 should be treated as 1 to avoid division by zero
    assert_eq!(compute_adaptive_interval(3600, 0, 0), 3600);
}

#[test]
fn adaptive_interval_saturates() {
    assert_eq!(compute_adaptive_interval(u64::MAX, 100, 10), u64::MAX);
    assert_eq!(compute_adaptive_interval(100, 25, 10), 300);
}
