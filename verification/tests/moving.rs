use rpcperf::metrics::instant::{Instant, Interval};
use rpcperf::moving::Moving;

fn at(ns: u64) -> Instant {
    Instant::from_nanos(ns)
}

#[test]
fn moving_empty() {
    let mut h = Moving::new(10, 3, Interval::from_seconds(2));
    assert_eq!(h.samples(), 0);
    assert_eq!(h.max(), 10);
    assert_eq!(h.precision(), 3);
    assert_eq!(h.buckets(), 11);
}

#[test]
fn moving_rolloff() {
    let second = 1_000_000_000;
    let mut h = Moving::new(10, 3, Interval::from_seconds(2));
    h.increment_at(1, 1, at(0));
    h.trim(at(second));
    assert_eq!(h.latched().samples(), 1);
    assert_eq!(h.latched().count(1), 1);
    // exactly the window old: still kept
    h.trim(at(2 * second));
    assert_eq!(h.latched().samples(), 1);
    h.trim(at(3 * second));
    assert_eq!(h.latched().samples(), 0);
    assert_eq!(h.latched().count(1), 0);
}

#[test]
fn moving_undoes_in_order_and_keeps_newer() {
    let mut h = Moving::new(100, 2, Interval::from_nanos(10));
    h.increment_at(5, 3, at(100));
    h.decrement_at(5, 1, at(105));
    h.increment_at(200, 2, at(107)); // above the maximum
    assert_eq!(h.latched().count(5), 2);
    assert_eq!(h.latched().too_high(), 2);
    h.trim(at(111)); // only the first sample is older than 10ns
    assert_eq!(h.latched().count(5), u64::MAX); // 0 - 1 wraps, as the counts do
    h.trim(at(116));
    assert_eq!(h.latched().count(5), 0);
    assert_eq!(h.latched().too_high(), 2);
    h.trim(at(118));
    assert_eq!(h.latched().too_high(), 0);
    assert_eq!(h.latched().samples(), 0);
}

#[test]
fn moving_reset_and_now() {
    let mut h = Moving::new(10, 1, Interval::from_seconds(60));
    h.increment(3, 2);
    h.decrement(3, 1);
    assert_eq!(h.samples(), 1);
    assert_eq!(h.count(3), 1);
    assert_eq!(h.too_high(), 0);
    assert_eq!(h.current().samples(), 1);
    h.reset();
    assert_eq!(h.samples(), 0);
}
