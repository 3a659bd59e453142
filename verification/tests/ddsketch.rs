use rpcperf::ddsketch::atomic::AtomicDDSketch;
use rpcperf::ddsketch::dense::{saturating_inc, DenseDDSketch};
use rpcperf::ddsketch::error::DDSketchErrorKind;

/// The floating-point layout of a sketch: the ratio between bucket bounds,
/// the cutoff and the number of buckets.
fn layout(limit: u64, alpha: f64) -> (f64, usize, usize) {
    let gamma = (1.0 + alpha) / (1.0 - alpha);
    let log_gamma_m1 = (gamma - 1.0).log(gamma);
    let log_limit = (limit as f64).log(gamma).ceil();
    let cutoff = (-log_gamma_m1).ceil();
    let rest = ((limit as f64).log(gamma) - log_gamma_m1).ceil();
    let mut num_buckets = if log_limit <= cutoff {
        log_limit as usize + 2
    } else {
        cutoff as usize + rest as usize + 2
    };
    if limit == u64::MAX {
        num_buckets -= 1;
    }
    (gamma, cutoff as usize, num_buckets)
}

fn with_limit(limit: u64, alpha: f64) -> DenseDDSketch {
    let (gamma, cutoff, num_buckets) = layout(limit, alpha);
    DenseDDSketch::from_layout(limit, gamma.to_bits(), cutoff, num_buckets)
}

fn log_index(gamma_bits: u64, value: u64) -> usize {
    (value as f64).log(f64::from_bits(gamma_bits)).ceil() as usize
}

fn increment(sketch: &mut DenseDDSketch, value: u64, count: u64) {
    let li = log_index(sketch.gamma_bits(), value);
    sketch.increment(value, count, li);
}

#[test]
fn test_clear() {
    let mut sketch = with_limit(64, 0.5);

    assert!(sketch.is_empty());
    assert_eq!(sketch.min(), std::u64::MAX);
    assert_eq!(sketch.max(), std::u64::MIN);

    increment(&mut sketch, 11, 33);
    increment(&mut sketch, 888, 34);
    increment(&mut sketch, 61, 33);

    assert_eq!(sketch.count(), 100);
    assert_eq!(sketch.max(), 888);
    assert_eq!(sketch.min(), 11);
    assert!(!sketch.is_empty());

    sketch.clear();

    assert!(sketch.is_empty());
    assert_eq!(sketch.count(), 0);
    assert_eq!(sketch.min(), std::u64::MAX);
    assert_eq!(sketch.max(), std::u64::MIN);
}

#[test]
fn dense_layout_and_indexes() {
    let sketch = with_limit(64, 0.5);
    assert_eq!(sketch.num_buckets(), 6);
    assert_eq!(sketch.cutoff(), 1);
    assert_eq!(sketch.limit(), 64);
    // zero is exact, values above the limit share the last bucket
    assert_eq!(sketch.index_of(0, 0), 0);
    assert_eq!(sketch.index_of(1000, 0), 5);
    // 11 lies between 3^2 and 3^3
    assert_eq!(sketch.index_of(11, log_index(sketch.gamma_bits(), 11)), 4);
}

#[test]
fn dense_too_high_and_rank() {
    let mut sketch = with_limit(64, 0.5);
    increment(&mut sketch, 11, 33);
    increment(&mut sketch, 888, 34);
    increment(&mut sketch, 0, 2);
    assert_eq!(sketch.too_high(), 34);
    // below the bucket of 11 only the bucket of zero counts
    assert_eq!(sketch.rank(11, log_index(sketch.gamma_bits(), 11)), 2);
    assert_eq!(sketch.rank(1000, 0), 35);
    let unlimited = with_limit(u64::MAX, 0.5);
    assert_eq!(unlimited.too_high(), 0);
}

#[test]
fn dense_quantile_index() {
    let mut sketch = with_limit(64, 0.5);
    increment(&mut sketch, 0, 10);
    increment(&mut sketch, 11, 10);
    increment(&mut sketch, 888, 10);
    // ranks 0..10 fall in the exact bucket of zero
    assert_eq!(sketch.quantile_index(5), Some(0));
    // ranks 10..20 fall in bucket 4, whose exponent is 3
    assert_eq!(sketch.quantile_index(15), Some(3));
    // ranks in the last bucket give the largest value
    assert_eq!(sketch.quantile_index(25), None);
    assert_eq!(sketch.quantile_index(40), None);
    assert_eq!(sketch.bounded(2_000), 888);
    assert_eq!(sketch.bounded(5), 5);
}

#[test]
fn dense_merge() {
    let mut a = with_limit(64, 0.5);
    let mut b = with_limit(64, 0.5);
    increment(&mut a, 11, 1);
    increment(&mut b, 61, 2);
    increment(&mut b, 3, u64::MAX);
    assert!(a.merge(&b).is_ok());
    assert_eq!(a.count(), u64::MAX);
    assert_eq!(a.min(), 3);
    assert_eq!(a.max(), 61);
    let c = with_limit(1_000, 0.5);
    let err = a.merge(&c).unwrap_err();
    assert_eq!(err.kind(), DDSketchErrorKind::Unmergeable);
    assert_eq!(a.count(), u64::MAX);
}

#[test]
fn dense_saturating_inc() {
    let mut x = u64::MAX - 1;
    saturating_inc(&mut x, 5);
    assert_eq!(x, u64::MAX);
    let mut y = 7;
    saturating_inc(&mut y, 5);
    assert_eq!(y, 12);
}

#[test]
fn atomic_sketch_basics() {
    let (gamma, cutoff, n) = layout(64, 0.5);
    let mut a = AtomicDDSketch::from_layout(64, gamma.to_bits(), cutoff, n);
    let mut b = AtomicDDSketch::from_layout(64, gamma.to_bits(), cutoff, n);
    let li = log_index(a.gamma_bits(), 11);
    a.increment(11, 3, li);
    b.increment(888, 4, 0);
    a.merge(&b);
    assert_eq!(a.count(), 7);
    assert_eq!(a.too_high(), 4);
    assert_eq!(a.max(), 888);
    assert_eq!(a.min(), 11);
    assert_eq!(a.quantile_index(1), Some(3));
    assert_eq!(a.quantile_index(5), None);
    a.clear();
    assert_eq!(a.count(), 0);
    assert_eq!(a.max(), u64::MAX);
    assert_eq!(a.min(), u64::MAX);
}
