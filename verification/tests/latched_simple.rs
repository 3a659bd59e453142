use rpcperf::latched::simple::Simple;

fn percentile(h: &Simple, p: f64) -> Option<usize> {
    let samples = h.samples();
    if samples == 0 {
        return None;
    }
    let need = (samples as f64 * p).ceil() as usize;
    Some(h.value_at_rank(need))
}

fn mean(h: &Simple) -> Option<usize> {
    let samples = h.samples();
    if samples == 0 {
        None
    } else {
        let sum = h.sum().unwrap_or(0);
        Some((sum as f64 / samples as f64).ceil() as usize)
    }
}

fn std_dev(h: &Simple) -> Option<usize> {
    let samples = h.samples();
    if samples == 0 {
        None
    } else {
        let mean = mean(h).unwrap();
        let mut sum = 0;
        for index in 0..h.buckets() {
            let count = h.get_bucket(index).unwrap().count();
            sum += (h.get_value(index).unwrap_or(0) as i64 - mean as i64).pow(2) as usize * count;
        }
        Some((sum as f64 / samples as f64).powf(0.5).round() as usize)
    }
}

#[test]
fn simple_get_index_1() {
    let histogram = Simple::new(1000000, 1);
    assert_eq!(histogram.get_index(0), Ok(0));
    assert_eq!(histogram.get_index(9), Ok(9));
    assert_eq!(histogram.get_index(10), Ok(10));
    assert_eq!(histogram.get_index(99), Ok(18));
    assert_eq!(histogram.get_index(100), Ok(19));
    assert_eq!(histogram.get_index(999), Ok(27));
    assert_eq!(histogram.get_index(1000), Ok(28));
    assert_eq!(histogram.get_index(9999), Ok(36));
    assert_eq!(histogram.get_index(10000), Ok(37));
    assert_eq!(histogram.get_index(99999), Ok(45));
    assert_eq!(histogram.get_index(100000), Ok(46));
    assert_eq!(histogram.get_index(999999), Ok(54));
    assert_eq!(histogram.get_index(1000000), Err(()));
}

#[test]
fn simple_get_index_2() {
    let histogram = Simple::new(1000000, 2);
    assert_eq!(histogram.get_index(0), Ok(0));
    assert_eq!(histogram.get_index(99), Ok(99));
    assert_eq!(histogram.get_index(100), Ok(100));
    assert_eq!(histogram.get_index(999), Ok(189));
    assert_eq!(histogram.get_index(1_000), Ok(190));
    assert_eq!(histogram.get_index(9_999), Ok(279));
    assert_eq!(histogram.get_index(10_000), Ok(280));
    assert_eq!(histogram.get_index(99_999), Ok(369));
    assert_eq!(histogram.get_index(100_000), Ok(370));
    assert_eq!(histogram.get_index(999_999), Ok(459));
    assert_eq!(histogram.get_index(1_000_000), Err(()));
}

#[test]
fn simple_get_index_3() {
    let histogram = Simple::new(1000000, 3);
    assert_eq!(histogram.get_index(0), Ok(0));
    assert_eq!(histogram.get_index(99), Ok(99));
    assert_eq!(histogram.get_index(100), Ok(100));
    assert_eq!(histogram.get_index(999), Ok(999));
    assert_eq!(histogram.get_index(1_000), Ok(1000));
    assert_eq!(histogram.get_index(9_999), Ok(1899));
    assert_eq!(histogram.get_index(10_000), Ok(1900));
    assert_eq!(histogram.get_index(99_999), Ok(2799));
    assert_eq!(histogram.get_index(100_000), Ok(2800));
    assert_eq!(histogram.get_index(999_999), Ok(3699));
    assert_eq!(histogram.get_index(1_000_000), Err(()));
}

#[test]
fn simple_get_value_1() {
    let histogram = Simple::new(1000000, 1);
    assert_eq!(histogram.get_value(0), Ok(0));
    assert_eq!(histogram.get_value(9), Ok(9));
    assert_eq!(histogram.get_value(10), Ok(19));
    assert_eq!(histogram.get_value(11), Ok(29));
    assert_eq!(histogram.get_value(18), Ok(99));
    assert_eq!(histogram.get_value(19), Ok(199));
}

#[test]
fn simple_get_value_2() {
    let histogram = Simple::new(1000000, 2);
    assert_eq!(histogram.get_value(0), Ok(0));
    assert_eq!(histogram.get_value(99), Ok(99));
    assert_eq!(histogram.get_value(100), Ok(109));
    assert_eq!(histogram.get_value(189), Ok(999));
    assert_eq!(histogram.get_value(190), Ok(1099));
    assert_eq!(histogram.get_value(279), Ok(9999));
    assert_eq!(histogram.get_value(280), Ok(10999));
    assert_eq!(histogram.get_value(369), Ok(99999));
    assert_eq!(histogram.get_value(0), Ok(0));
}

#[test]
fn simple_get_value_3() {
    let histogram = Simple::new(1000000, 3);
    assert_eq!(histogram.get_value(0), Ok(0));
    assert_eq!(histogram.get_value(99), Ok(99));
    assert_eq!(histogram.get_value(100), Ok(100));
    assert_eq!(histogram.get_value(999), Ok(999));
    assert_eq!(histogram.get_value(1000), Ok(1009));
    assert_eq!(histogram.get_value(1899), Ok(9999));
    assert_eq!(histogram.get_value(1900), Ok(10099));
    assert_eq!(histogram.get_value(2799), Ok(99999));
    assert_eq!(histogram.get_value(0), Ok(0));
}

#[test]
fn simple_incr_decr() {
    let mut histogram = Simple::new(10, 1);
    assert_eq!(histogram.min(), 0);
    assert_eq!(histogram.max(), 10);
    assert_eq!(histogram.count(1), 0);
    assert_eq!(histogram.samples(), 0);
    histogram.incr(1, 1);
    assert_eq!(histogram.count(0), 0);
    assert_eq!(histogram.count(1), 1);
    assert_eq!(histogram.count(2), 0);
    assert_eq!(histogram.samples(), 1);
    histogram.decr(1, 1);
    assert_eq!(histogram.count(0), 0);
    assert_eq!(histogram.count(1), 0);
    assert_eq!(histogram.count(2), 0);
    assert_eq!(histogram.samples(), 0);
}

#[test]
fn simple_clear() {
    let mut histogram = Simple::new(10, 1);
    for i in 0..11 {
        histogram.incr(i, 1);
        assert_eq!(histogram.samples(), i + 1);
    }
    assert_eq!(histogram.samples(), 11);
    assert_eq!(histogram.too_low(), 0);
    assert_eq!(histogram.too_high(), 1);
    histogram.clear();
    assert_eq!(histogram.samples(), 0);
    assert_eq!(histogram.too_low(), 0);
    assert_eq!(histogram.too_high(), 0);
}

#[test]
fn simple_bucket_underflow() {
    let mut histogram = Simple::new(10, 1);
    assert_eq!(histogram.count(1), 0);
    histogram.decr(1, 1);
    assert_eq!(histogram.count(1), usize::MAX);
}

#[test]
fn simple_bucket_overflow() {
    let mut histogram = Simple::new(10, 1);
    assert_eq!(histogram.count(1), 0);
    histogram.incr(1, usize::MAX);
    assert_eq!(histogram.count(1), usize::MAX);
    histogram.incr(1, 1);
    assert_eq!(histogram.count(1), 0);
}

#[test]
fn simple_percentiles_exact() {
    let mut histogram = Simple::new(101, 3);
    for i in 1..101 {
        histogram.incr(i, 1);
    }
    assert_eq!(percentile(&histogram, 0.01).unwrap(), 1);
    assert_eq!(percentile(&histogram, 0.25).unwrap(), 25);
    assert_eq!(percentile(&histogram, 0.5).unwrap(), 50);
    assert_eq!(percentile(&histogram, 0.75).unwrap(), 75);
    assert_eq!(percentile(&histogram, 0.90).unwrap(), 90);
    assert_eq!(percentile(&histogram, 0.99).unwrap(), 99);
}

#[test]
fn simple_percentiles_approx() {
    let mut histogram = Simple::new(101, 1);
    for i in 0..101 {
        histogram.incr(i, 1);
        assert_eq!(histogram.samples(), i + 1);
    }
    assert_eq!(histogram.samples(), 101);
    assert_eq!(percentile(&histogram, 0.01).unwrap(), 1);
    assert_eq!(percentile(&histogram, 0.25).unwrap(), 29);
    assert_eq!(percentile(&histogram, 0.5).unwrap(), 59);
    assert_eq!(percentile(&histogram, 0.75).unwrap(), 79);
    assert_eq!(percentile(&histogram, 0.90).unwrap(), 100);
    assert_eq!(percentile(&histogram, 0.99).unwrap(), 100);
}

#[test]
fn simple_too_high() {
    let mut histogram = Simple::new(101, 1);
    assert_eq!(histogram.samples(), 0);
    assert_eq!(histogram.too_low(), 0);
    assert_eq!(histogram.too_high(), 0);
    histogram.incr(102, 1);
    assert_eq!(histogram.samples(), 1);
    assert_eq!(histogram.too_low(), 0);
    assert_eq!(histogram.too_high(), 1);
    histogram.decr(102, 1);
    assert_eq!(histogram.samples(), 0);
    assert_eq!(histogram.too_low(), 0);
    assert_eq!(histogram.too_high(), 0);
}

#[test]
fn simple_incr_min() {
    let mut histogram = Simple::new(101, 1);
    assert_eq!(histogram.samples(), 0);
    assert_eq!(histogram.too_low(), 0);
    assert_eq!(histogram.too_high(), 0);
    histogram.incr(1, 1);
    assert_eq!(histogram.samples(), 1);
    assert_eq!(histogram.too_low(), 0);
    assert_eq!(histogram.too_high(), 0);
}

#[test]
fn simple_incr_max() {
    let mut histogram = Simple::new(101, 1);
    assert_eq!(histogram.samples(), 0);
    assert_eq!(histogram.too_low(), 0);
    assert_eq!(histogram.too_high(), 0);
    histogram.incr(99, 1);
    assert_eq!(histogram.samples(), 1);
    assert_eq!(histogram.too_low(), 0);
    assert_eq!(histogram.too_high(), 0);
    histogram.incr(100, 1);
    assert_eq!(histogram.samples(), 2);
    assert_eq!(histogram.too_low(), 0);
    assert_eq!(histogram.too_high(), 1);
}

#[test]
fn simple_mean() {
    let mut histogram = Simple::new(101, 3);
    assert_eq!(mean(&histogram), None);
    assert_eq!(histogram.samples(), 0);
    for i in 0..101 {
        histogram.incr(i, 1);
    }
    assert_eq!(mean(&histogram), Some(50));
    assert_eq!(histogram.samples(), 101);
    histogram.clear();
    histogram.incr(25, 100);
    assert_eq!(mean(&histogram), Some(25));
}

#[test]
fn simple_std_dev() {
    let mut histogram = Simple::new(101, 3);
    assert_eq!(std_dev(&histogram), None);
    assert_eq!(histogram.samples(), 0);
    for i in 0..101 {
        histogram.incr(i, 1);
    }
    assert_eq!(std_dev(&histogram), Some(29));
    assert_eq!(histogram.samples(), 101);
    histogram.clear();
    histogram.incr(25, 100);
    assert_eq!(std_dev(&histogram), Some(0));
}

#[test]
fn simple_sum_mode_and_buckets() {
    let mut histogram = Simple::new(101, 1);
    assert_eq!(histogram.sum(), None);
    assert_eq!(histogram.mode(), None);
    assert_eq!(histogram.highest_count(), 0);
    assert_eq!(histogram.buckets(), 19);
    histogram.incr(5, 3);
    histogram.incr(15, 4);
    // 5 is its own bucket; 15 lies in the bucket 10..=19, reported as 19
    assert_eq!(histogram.sum(), Some(5 * 3 + 19 * 4));
    // the exact bucket has 3 per unit of width, the other 4 over a width of 10
    assert_eq!(histogram.highest_count(), 3);
    assert_eq!(histogram.mode(), Some(3));
    let bucket = histogram.get_bucket(10).unwrap();
    assert_eq!(bucket.min(), 9);
    assert_eq!(bucket.max(), 19);
    assert_eq!(bucket.count(), 4);
    assert_eq!(bucket.width(), 10);
    assert!(histogram.get_bucket(19).is_none());
    let last = histogram.get_bucket(18).unwrap();
    assert_eq!(last.max(), 101);
    assert_eq!(histogram.get_value(18), Ok(100));
    assert_eq!(histogram.get_value(19), Err(()));
    assert_eq!(histogram.precision(), 1);
}

#[test]
fn simple_decr_restores_wrapped_count() {
    let mut histogram = Simple::new(1000, 2);
    histogram.incr(7, usize::MAX);
    histogram.incr(7, 5);
    histogram.decr(7, 5);
    assert_eq!(histogram.count(7), usize::MAX);
    histogram.decr(7, usize::MAX);
    assert_eq!(histogram.count(7), 0);
}

#[test]
fn simple_checked_totals() {
    let mut h = Simple::new(100, 2);
    assert_eq!(h.checked_samples(), Some(0));
    assert_eq!(h.checked_weighted_sum(), Some(0));
    h.incr(5, 2);
    h.incr(7, 1);
    assert_eq!(h.checked_samples(), Some(3));
    assert_eq!(h.checked_weighted_sum(), h.sum());
    h.incr(6, usize::MAX);
    assert_eq!(h.checked_samples(), None);
    assert_eq!(h.checked_weighted_sum(), None);
}
