use rpcperf::counter::Counter;

#[test]
fn counter_incr_decr() {
    let mut counter = Counter::default();
    assert_eq!(counter.get(), 0);
    counter.incr(1);
    assert_eq!(counter.get(), 1);
    counter.decr(1);
    assert_eq!(counter.get(), 0);
}

#[test]
fn underflow() {
    let mut counter = Counter::default();
    assert_eq!(counter.get(), 0);
    counter.decr(1);
    assert_eq!(counter.get(), usize::MAX);
}

#[test]
fn overflow() {
    let mut counter = Counter::default();
    assert_eq!(counter.get(), 0);
    counter.incr(usize::MAX);
    assert_eq!(counter.get(), usize::MAX);
    counter.incr(1);
    assert_eq!(counter.get(), 0);
}

#[test]
fn counter_set_and_clear() {
    let mut counter = Counter::new(7);
    assert_eq!(counter.get(), 7);
    counter.set(42);
    assert_eq!(counter.get(), 42);
    counter.clear();
    assert_eq!(counter.get(), 0);
}

#[test]
fn counter_saturating_sub() {
    let mut counter = Counter::new(5);
    assert_eq!(counter.saturating_sub(3), Ok(()));
    assert_eq!(counter.get(), 2);
    assert_eq!(counter.saturating_sub(3), Err(()));
    assert_eq!(counter.get(), 2);
}
