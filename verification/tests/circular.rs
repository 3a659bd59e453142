use rpcperf::circular::Circular;

const SECOND: u64 = 1_000_000_000;

#[test]
fn circular_empty() {
    let mut h = Circular::new(10, 3, 2 * SECOND, 1000);
    assert_eq!(h.samples(), 0);
    assert_eq!(h.max(), 10);
    assert_eq!(h.precision(), 3);
    assert_eq!(h.buckets(), 11);
}

#[test]
fn circular_rolloff() {
    let mut h = Circular::new(10, 3, 2 * SECOND, 1000);
    h.increment_at(1, 1, 10 * SECOND);
    h.trim(11 * SECOND);
    assert_eq!(h.latched().samples(), 1);
    h.trim(12 * SECOND);
    assert_eq!(h.latched().samples(), 1);
    h.trim(12 * SECOND + 1);
    assert_eq!(h.latched().samples(), 0);
}

#[test]
fn circular_full_ring_takes_back_oldest() {
    let mut h = Circular::new(10, 3, 100 * SECOND, 2);
    h.increment_at(1, 1, SECOND);
    h.increment_at(2, 1, SECOND);
    // the newest position goes back to the first slot at the end of the
    // ring, so the second sample took the first one's slot; with both slots
    // counted as used, the third sample takes back the slot it finds there
    h.increment_at(3, 1, SECOND);
    assert_eq!(h.latched().count(1), 1);
    assert_eq!(h.latched().count(2), 0);
    assert_eq!(h.latched().count(3), 1);
    // a removal that leaves the ring is added back
    let mut h = Circular::new(10, 3, 100 * SECOND, 1);
    h.decrement_at(5, 1, SECOND);
    h.increment_at(6, 1, SECOND);
    assert_eq!(h.latched().count(5), 0);
    assert_eq!(h.latched().count(6), 1);
}

#[test]
fn circular_before_window_nothing_expires() {
    let mut h = Circular::new(10, 1, 5 * SECOND, 4);
    h.increment_at(2, 3, 0);
    h.trim(SECOND);
    assert_eq!(h.latched().samples(), 3);
    h.reset();
    assert_eq!(h.latched().samples(), 0);
    h.increment(4, 1);
    assert_eq!(h.count(4), 1);
    assert_eq!(h.too_high(), 0);
    assert_eq!(h.current().samples(), 1);
}

#[test]
fn circular_expired_removal_is_added_back() {
    let mut h = Circular::new(10, 1, 5, 3);
    h.increment_at(3, 2, 10);
    h.decrement_at(3, 1, 11);
    assert_eq!(h.latched().count(3), 1);
    h.trim(100);
    assert_eq!(h.latched().count(3), 0);
    assert_eq!(h.latched().samples(), 0);
}

#[test]
fn circular_pair_taken_back_after_increment_left_first() {
    let mut h = Circular::new(10, 1, 5, 3);
    h.increment_at(3, 2, 10);
    // by 20 the increment has left the window and is taken back first
    h.decrement_at(3, 1, 20);
    h.trim(100);
    assert_eq!(h.latched().count(3), 0);
    assert_eq!(h.latched().samples(), 0);
}
