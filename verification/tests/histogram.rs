use rpcperf::histogram::Histogram;
use rpcperf::metrics::instant::{Instant, Interval};

fn percentile(h: &mut Histogram, p: f64) -> Option<u64> {
    let total = h.total_count();
    if total == 0 {
        None
    } else {
        let mut need = (p * total as f64).ceil() as u64;
        if need == 0 {
            need = 1;
        }
        Some(h.value_at_rank(need))
    }
}

fn at_ms(ms: u64) -> Instant {
    Instant::from_nanos(ms * 1_000_000)
}

#[test]
fn basic_latched() {
    let mut h = Histogram::new(100, 3, None, None);
    assert_eq!(h.total_count(), 0);
    for i in 1..=100 {
        h.increment(i, 1);
        assert_eq!(h.total_count(), i);
    }
    assert_eq!(percentile(&mut h, 0.0), Some(1));
    assert_eq!(percentile(&mut h, 0.05), Some(5));
    assert_eq!(percentile(&mut h, 0.1), Some(10));
    assert_eq!(percentile(&mut h, 0.25), Some(25));
    assert_eq!(percentile(&mut h, 0.50), Some(50));
    assert_eq!(percentile(&mut h, 0.75), Some(75));
    assert_eq!(percentile(&mut h, 0.90), Some(90));
    assert_eq!(percentile(&mut h, 0.95), Some(95));
    assert_eq!(percentile(&mut h, 0.99), Some(99));
    assert_eq!(percentile(&mut h, 0.999), Some(100));
    assert_eq!(percentile(&mut h, 1.0), Some(100));
    assert_eq!(h.mode(), 1);
    assert_eq!(h.mean(), 50);
    h.clear();
    assert_eq!(percentile(&mut h, 0.0), None);
    assert_eq!(h.total_count(), 0);
}

#[test]
fn histogram_basic_moving() {
    let mut h = Histogram::new(100, 3, Some(Interval::from_millis(1)), None);
    assert_eq!(h.total_count_at(at_ms(0)), 0);
    for i in 1..100 {
        h.increment_at(i, 1, at_ms(2 * i));
        assert_eq!(h.total_count_at(at_ms(2 * i)), 1);
        assert_eq!(h.value_at_rank(1), i);
    }
    assert_eq!(h.total_count_at(at_ms(300)), 0);
}

#[test]
fn histogram_basic_capacity() {
    let mut h = Histogram::new(100, 3, None, Some(1));
    assert_eq!(h.total_count(), 0);
    for i in 1..100 {
        h.increment(i, 1);
        assert_eq!(h.total_count(), 1);
        assert_eq!(percentile(&mut h, 0.0), Some(i));
        assert_eq!(percentile(&mut h, 1.0), Some(i));
    }
    assert_eq!(h.total_count(), 1);
}

#[test]
fn histogram_basic_moving_capacity() {
    let mut h = Histogram::new(100, 3, Some(Interval::from_millis(1)), Some(1));
    for i in 1..100 {
        h.increment_at(i, 1, at_ms(0));
        assert_eq!(h.total_count_at(at_ms(0)), 1);
        assert_eq!(h.value_at_rank(1), i);
    }
    assert_eq!(h.total_count_at(at_ms(0)), 1);
    assert_eq!(h.total_count_at(at_ms(2)), 0);
}

#[test]
fn histogram_saturates_and_counts_too_high() {
    let mut h = Histogram::new(10, 1, None, None);
    h.increment(3, u64::MAX);
    h.increment(3, 5);
    h.decrement(4, 1);
    h.increment(11, 2);
    assert_eq!(h.too_high(), 2);
    h.decrement(11, 5);
    assert_eq!(h.too_high(), 0);
    let b = h.get_bucket(3).unwrap();
    assert_eq!(b.count(), u64::MAX);
    assert_eq!(b.min(), 3);
    assert_eq!(b.max(), 4);
    assert_eq!(b.value(), 3);
    assert_eq!(b.value(), b.nominal());
    assert!(h.get_bucket(11).is_none());
}

#[test]
fn histogram_window_undoes_decrements() {
    let mut h = Histogram::new(1000, 2, Some(Interval::from_nanos(5)), None);
    h.increment_at(500, 3, Instant::from_nanos(0));
    h.decrement_at(500, 1, Instant::from_nanos(3));
    assert_eq!(h.total_count_at(Instant::from_nanos(4)), 2);
    // the increment expires, taking its three samples back from two
    assert_eq!(h.total_count_at(Instant::from_nanos(6)), 0);
    // the decrement expires, giving one back
    assert_eq!(h.total_count_at(Instant::from_nanos(9)), 1);
}

#[test]
fn capacity_keeps_exactly_the_last_increments() {
    let mut h = Histogram::new(100, 3, None, Some(3));
    for v in 1..=5u64 {
        h.increment(v, 1);
    }
    assert_eq!(h.total_count(), 3);
    assert_eq!(h.value_at_rank(1), 3);
    assert_eq!(h.value_at_rank(2), 4);
    assert_eq!(h.value_at_rank(3), 5);
    assert_eq!(h.bucket_count(1), 0);
    assert_eq!(h.bucket_count(2), 0);
    assert_eq!(h.bucket_count(3), 1);
}

#[test]
fn histogram_checked_queries() {
    let mut h = Histogram::new(100, 3, None, None);
    assert_eq!(h.checked_total_count(), Some(0));
    h.increment(5, 2);
    h.increment(7, 1);
    assert_eq!(h.checked_total_count(), Some(3));
    assert_eq!(h.checked_value_at_rank(1), Some(5));
    assert_eq!(h.checked_value_at_rank(3), Some(7));
    assert_eq!(h.checked_value_at_rank(1), Some(h.value_at_rank(1)));
    // a rank beyond every bucket gives the maximum
    assert_eq!(h.checked_value_at_rank(10), Some(100));
    h.increment(200, u64::MAX);
    assert_eq!(h.checked_total_count(), None);
}

#[test]
fn histogram_checked_rank_refuses_an_overflowing_scan() {
    let mut h = Histogram::new(1000, 3, None, None);
    h.increment(5, 10);
    h.increment(150, u64::MAX);
    assert_eq!(h.checked_value_at_rank(5), Some(5));
    // reaching the second block would carry the running count past u64::MAX
    assert_eq!(h.checked_value_at_rank(11), None);
}
