use rpcperf::bucket::Bucket as SimpleBucket;
use rpcperf::latched::{Bucket, Latched};

#[test]
fn bucketing_1() {
    let histogram = Latched::new(100, 1);
    for i in 0..10u64 {
        let b = histogram.get_bucket(i as usize).unwrap();
        assert_eq!(b.min(), i);
        assert_eq!(b.max(), i + 1);
        assert_eq!(b.nominal(), i);
    }
    assert_eq!(histogram.get_bucket(10).unwrap().min(), 10);
    assert_eq!(histogram.get_bucket(10).unwrap().max(), 20);
    assert_eq!(histogram.get_bucket(10).unwrap().nominal(), 19);
}

#[test]
fn latched_get_index_1() {
    let histogram = Latched::new(1000000, 1);
    assert_eq!(histogram.get_index(0), Ok(0));
    assert_eq!(histogram.get_index(9), Ok(9));
    assert_eq!(histogram.get_index(10), Ok(10));
    assert_eq!(histogram.get_index(99), Ok(18));
    assert_eq!(histogram.get_index(100), Ok(19));
    assert_eq!(histogram.get_index(999), Ok(27));
    assert_eq!(histogram.get_index(1000), Ok(28));
    assert_eq!(histogram.get_index(9999), Ok(36));
    assert_eq!(histogram.get_index(10000), Ok(37));
    assert_eq!(histogram.get_index(99999), Ok(45));
    assert_eq!(histogram.get_index(100000), Ok(46));
    assert_eq!(histogram.get_index(999999), Ok(54));
    assert_eq!(histogram.get_index(1000000), Ok(55));
    assert_eq!(histogram.get_index(1000001), Err(()));
}

#[test]
fn latched_get_index_2() {
    let histogram = Latched::new(1000000, 2);
    assert_eq!(histogram.get_index(0), Ok(0));
    assert_eq!(histogram.get_index(99), Ok(99));
    assert_eq!(histogram.get_index(100), Ok(100));
    assert_eq!(histogram.get_index(999), Ok(189));
    assert_eq!(histogram.get_index(1_000), Ok(190));
    assert_eq!(histogram.get_index(9_999), Ok(279));
    assert_eq!(histogram.get_index(10_000), Ok(280));
    assert_eq!(histogram.get_index(99_999), Ok(369));
    assert_eq!(histogram.get_index(100_000), Ok(370));
    assert_eq!(histogram.get_index(999_999), Ok(459));
    assert_eq!(histogram.get_index(1_000_000), Ok(460));
    assert_eq!(histogram.get_index(1_000_001), Err(()));
}

#[test]
fn latched_get_index_3() {
    let histogram = Latched::new(1000000, 3);
    assert_eq!(histogram.get_index(0), Ok(0));
    assert_eq!(histogram.get_index(99), Ok(99));
    assert_eq!(histogram.get_index(100), Ok(100));
    assert_eq!(histogram.get_index(999), Ok(999));
    assert_eq!(histogram.get_index(1_000), Ok(1000));
    assert_eq!(histogram.get_index(9_999), Ok(1899));
    assert_eq!(histogram.get_index(10_000), Ok(1900));
    assert_eq!(histogram.get_index(99_999), Ok(2799));
    assert_eq!(histogram.get_index(100_000), Ok(2800));
    assert_eq!(histogram.get_index(999_999), Ok(3699));
    assert_eq!(histogram.get_index(1_000_000), Ok(3700));
    assert_eq!(histogram.get_index(1_000_001), Err(()));
}

#[test]
fn latched_get_value_1() {
    let histogram = Latched::new(1000000, 1);
    assert_eq!(histogram.get_value(0), Ok(0));
    assert_eq!(histogram.get_value(9), Ok(9));
    assert_eq!(histogram.get_value(10), Ok(19));
    assert_eq!(histogram.get_value(11), Ok(29));
    assert_eq!(histogram.get_value(18), Ok(99));
    assert_eq!(histogram.get_value(19), Ok(199));
}

#[test]
fn latched_get_value_2() {
    let histogram = Latched::new(1000000, 2);
    assert_eq!(histogram.get_value(0), Ok(0));
    assert_eq!(histogram.get_value(99), Ok(99));
    assert_eq!(histogram.get_value(100), Ok(109));
    assert_eq!(histogram.get_value(189), Ok(999));
    assert_eq!(histogram.get_value(190), Ok(1099));
    assert_eq!(histogram.get_value(279), Ok(9999));
    assert_eq!(histogram.get_value(280), Ok(10999));
    assert_eq!(histogram.get_value(369), Ok(99999));
    assert_eq!(histogram.get_value(0), Ok(0));
}

#[test]
fn latched_get_value_3() {
    let histogram = Latched::new(1000000, 3);
    assert_eq!(histogram.get_value(0), Ok(0));
    assert_eq!(histogram.get_value(99), Ok(99));
    assert_eq!(histogram.get_value(100), Ok(100));
    assert_eq!(histogram.get_value(999), Ok(999));
    assert_eq!(histogram.get_value(1000), Ok(1009));
    assert_eq!(histogram.get_value(1899), Ok(9999));
    assert_eq!(histogram.get_value(1900), Ok(10099));
    assert_eq!(histogram.get_value(2799), Ok(99999));
    assert_eq!(histogram.get_value(0), Ok(0));
}

#[test]
fn latched_incr_decr() {
    let mut histogram = Latched::new(10, 1);
    assert_eq!(histogram.max(), 10);
    assert_eq!(histogram.count(1), 0);
    assert_eq!(histogram.samples(), 0);
    histogram.increment(1, 1);
    assert_eq!(histogram.count(0), 0);
    assert_eq!(histogram.count(1), 1);
    assert_eq!(histogram.count(2), 0);
    assert_eq!(histogram.samples(), 1);
    histogram.decrement(1, 1);
    assert_eq!(histogram.count(0), 0);
    assert_eq!(histogram.count(1), 0);
    assert_eq!(histogram.count(2), 0);
    assert_eq!(histogram.samples(), 0);
}

#[test]
fn latched_clear() {
    let mut histogram = Latched::new(10, 1);
    for i in 0..12 {
        histogram.increment(i, 1);
        assert_eq!(histogram.samples(), i + 1);
    }
    assert_eq!(histogram.samples(), 12);
    assert_eq!(histogram.too_high(), 1);
    histogram.reset();
    assert_eq!(histogram.samples(), 0);
    assert_eq!(histogram.too_high(), 0);
}

#[test]
fn latched_bucket_underflow() {
    let mut histogram = Latched::new(10, 1);
    assert_eq!(histogram.count(1), 0);
    histogram.decrement(1, 1);
    assert_eq!(histogram.count(1), u64::MAX);
}

#[test]
fn latched_bucket_overflow() {
    let mut histogram = Latched::new(10, 1);
    assert_eq!(histogram.count(1), 0);
    histogram.increment(1, u64::MAX);
    assert_eq!(histogram.count(1), u64::MAX);
    histogram.increment(1, 1);
    assert_eq!(histogram.count(1), 0);
}

// The percentile of the original takes a fraction; `value_at_rank` takes
// the number of samples that fraction covers, `ceil(samples * p)` (or 1 for
// the zeroth percentile).
fn need(samples: u64, p: f64) -> u64 {
    if p == 0.0 {
        1
    } else {
        (samples as f64 * p).ceil() as u64
    }
}

#[test]
fn latched_percentiles_exact() {
    let mut histogram = Latched::new(101, 3);
    for i in 1..101 {
        histogram.increment(i, 1);
    }
    let s = histogram.samples();
    assert_eq!(histogram.value_at_rank(need(s, 0.0)).unwrap(), 1);
    assert_eq!(histogram.value_at_rank(need(s, 0.01)).unwrap(), 1);
    assert_eq!(histogram.value_at_rank(need(s, 0.25)).unwrap(), 25);
    assert_eq!(histogram.value_at_rank(need(s, 0.5)).unwrap(), 50);
    assert_eq!(histogram.value_at_rank(need(s, 0.75)).unwrap(), 75);
    assert_eq!(histogram.value_at_rank(need(s, 0.90)).unwrap(), 90);
    assert_eq!(histogram.value_at_rank(need(s, 0.99)).unwrap(), 99);
    assert_eq!(histogram.value_at_rank(need(s, 1.0)).unwrap(), 100);
}

#[test]
fn latched_percentiles_approx() {
    let mut histogram = Latched::new(100, 1);
    for i in 0..101 {
        histogram.increment(i, 1);
        assert_eq!(histogram.samples(), i + 1);
    }
    let s = histogram.samples();
    assert_eq!(s, 101);
    assert_eq!(histogram.value_at_rank(need(s, 0.01)).unwrap(), 1);
    assert_eq!(histogram.value_at_rank(need(s, 0.25)).unwrap(), 29);
    assert_eq!(histogram.value_at_rank(need(s, 0.5)).unwrap(), 59);
    assert_eq!(histogram.value_at_rank(need(s, 0.75)).unwrap(), 79);
    assert_eq!(histogram.value_at_rank(need(s, 0.90)).unwrap(), 99);
    assert_eq!(histogram.value_at_rank(need(s, 0.99)).unwrap(), 99);
    assert_eq!(histogram.value_at_rank(need(s, 1.0)).unwrap(), 100);
}

#[test]
fn latched_too_high() {
    let mut histogram = Latched::new(100, 1);
    assert_eq!(histogram.samples(), 0);
    assert_eq!(histogram.too_high(), 0);
    histogram.increment(102, 1);
    assert_eq!(histogram.samples(), 1);
    assert_eq!(histogram.too_high(), 1);
    histogram.decrement(102, 1);
    assert_eq!(histogram.samples(), 0);
    assert_eq!(histogram.too_high(), 0);
}

#[test]
fn latched_incr_min() {
    let mut histogram = Latched::new(100, 1);
    assert_eq!(histogram.samples(), 0);
    assert_eq!(histogram.too_high(), 0);
    histogram.increment(1, 1);
    assert_eq!(histogram.samples(), 1);
    assert_eq!(histogram.too_high(), 0);
}

#[test]
fn latched_incr_max() {
    let mut histogram = Latched::new(100, 1);
    assert_eq!(histogram.samples(), 0);
    assert_eq!(histogram.too_high(), 0);
    histogram.increment(100, 1);
    assert_eq!(histogram.samples(), 1);
    assert_eq!(histogram.too_high(), 0);
    histogram.increment(101, 1);
    assert_eq!(histogram.samples(), 2);
    assert_eq!(histogram.too_high(), 1);
}

#[test]
fn incr_max_large() {
    let max = 80_000_000_000;
    let mut histogram = Latched::new(max, 1);
    assert_eq!(histogram.samples(), 0);
    assert_eq!(histogram.too_high(), 0);
    histogram.increment(max - 1, 1);
    assert_eq!(histogram.samples(), 1);
    assert_eq!(histogram.too_high(), 0);
    histogram.increment(max + 1, 1);
    assert_eq!(histogram.samples(), 2);
    assert_eq!(histogram.too_high(), 1);
}

#[test]
fn latched_mean() {
    let mut histogram = Latched::new(100, 3);
    assert_eq!(histogram.sum(), None);
    for i in 0..101 {
        histogram.increment(i, 1);
    }
    let mean = histogram.sum().unwrap() as f64 / histogram.samples() as f64;
    assert_eq!(mean.round() as usize, 50);
    assert_eq!(histogram.samples(), 101);
    histogram.reset();
    histogram.increment(25, 100);
    assert_eq!(histogram.sum().unwrap() as f64 / histogram.samples() as f64, 25.0);
}

fn std_dev(h: &Latched) -> Option<f64> {
    let samples = h.samples();
    if samples == 0 {
        return None;
    }
    let mean = h.sum().unwrap_or(0) as f64 / samples as f64;
    let mut sum = 0.0;
    let mut i = 0;
    while let Some(bucket) = h.get_bucket(i) {
        sum += (bucket.nominal() as f64 - mean).powf(2.0) * (bucket.count() as f64);
        i += 1;
    }
    Some((sum / samples as f64).powf(0.5))
}

#[test]
fn latched_std_dev() {
    let mut histogram = Latched::new(100, 3);
    assert_eq!(std_dev(&histogram), None);
    assert_eq!(histogram.samples(), 0);
    for i in 0..101 {
        histogram.increment(i, 1);
    }
    assert_eq!(std_dev(&histogram).map(|v| v.round() as usize), Some(29));
    assert_eq!(histogram.samples(), 101);
    histogram.reset();
    histogram.increment(25, 100);
    assert_eq!(std_dev(&histogram), Some(0.0));
}

#[test]
fn latched_sum_mode_and_highest_count() {
    let mut histogram = Latched::new(100, 1);
    assert_eq!(histogram.mode(), None);
    assert_eq!(histogram.highest_count(), None);
    histogram.increment(3, 4);
    histogram.increment(55, 30);
    // bucket [50, 60) holds 30 samples over 10 values: density 3 < 4
    assert_eq!(histogram.highest_count(), Some(4));
    assert_eq!(histogram.mode(), Some(4));
    assert_eq!(histogram.sum(), Some(3 * 4 + 59 * 30));
}

#[test]
fn latched_last_bucket_and_too_high_bounds() {
    // the last bucket reports the maximum as its lower bound
    let histogram = Latched::new(150, 1);
    let last = histogram.buckets() - 1;
    assert_eq!(histogram.get_index(120), Ok(last));
    assert_eq!(histogram.get_min_value(last), Ok(150));
    assert_eq!(histogram.get_max_value(last), Ok(151));
    assert_eq!(histogram.get_min_value(last + 1), Err(()));
    assert!(histogram.get_bucket(last + 1).is_none());
}

#[test]
fn bucket_weights() {
    let mut b = rpcperf::latched::Bucket::new(10, 20);
    b.increment(25);
    assert_eq!(b.count(), 25);
    assert_eq!(b.width(), 10);
    assert_eq!(b.weighted_count(), 2);
    assert_eq!(b.nominal(), 19);
    b.decrement(30);
    assert_eq!(b.count(), u64::MAX - 4);
    b.reset();
    assert_eq!(b.count(), 0);
}

#[test]
fn mod_incr_decr() {
    let mut bucket = Bucket::new(1, 2);
    assert_eq!(bucket.min(), 1);
    assert_eq!(bucket.max(), 2);
    assert_eq!(bucket.count(), 0);
    bucket.increment(1);
    assert_eq!(bucket.count(), 1);
    bucket.decrement(1);
    assert_eq!(bucket.count(), 0);
}

#[test]
fn bucket_incr_decr() {
    let mut bucket = SimpleBucket::new(1, 2);
    assert_eq!(bucket.min(), 1);
    assert_eq!(bucket.max(), 2);
    assert_eq!(bucket.count(), 0);
    bucket.incr(1);
    assert_eq!(bucket.count(), 1);
    bucket.decr(1);
    assert_eq!(bucket.count(), 0);
}

#[test]
fn bucket_wraps_and_clears() {
    let mut bucket = SimpleBucket::new(3, 8);
    assert_eq!(bucket.width(), 5);
    bucket.decr(1);
    assert_eq!(bucket.count(), usize::MAX);
    bucket.incr(2);
    assert_eq!(bucket.count(), 1);
    bucket.clear();
    assert_eq!(bucket.count(), 0);
}

#[test]
fn latched_checked_totals() {
    let mut h = Latched::new(100, 2);
    assert_eq!(h.checked_samples(), Some(0));
    assert_eq!(h.checked_weighted_sum(), Some(0));
    h.increment(5, 2);
    h.increment(7, 1);
    h.increment(200, 4);
    assert_eq!(h.checked_samples(), Some(7));
    assert_eq!(h.checked_samples(), Some(h.samples()));
    assert_eq!(h.checked_weighted_sum(), h.sum());
    h.increment(6, u64::MAX);
    assert_eq!(h.checked_samples(), None);
    assert_eq!(h.checked_weighted_sum(), None);
}
