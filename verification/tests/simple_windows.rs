use rpcperf::heatmap::simple::Simple as SimpleHeatmap;
use rpcperf::metrics::instant::{Instant, Interval};
use rpcperf::moving::simple::Simple;

const SECOND: usize = 1_000_000_000;

fn at_ms(ms: u64) -> Instant {
    Instant::from_nanos(ms * 1_000_000)
}

#[test]
fn simple_empty() {
    let mut h = Simple::default();
    assert_eq!(h.samples(), 0);
}

#[test]
fn simple_moving_rolloff_at() {
    let mut h = Simple::new(10, 3, Interval::from_seconds(2));
    assert_eq!(h.samples_at(at_ms(0)), 0);
    h.incr_at(1, 1, at_ms(0));
    assert_eq!(h.samples_at(at_ms(0)), 1);
    assert_eq!(h.samples_at(at_ms(1_000)), 1);
    // exactly the window old is still kept
    assert_eq!(h.samples_at(at_ms(2_000)), 1);
    assert_eq!(h.samples_at(at_ms(3_000)), 0);
}

#[test]
fn simple_moving_decrement_expires_too() {
    let mut h = Simple::new(100, 2, Interval::from_millis(10));
    h.incr_at(5, 3, at_ms(0));
    h.decr_at(5, 1, at_ms(5));
    assert_eq!(h.samples_at(at_ms(6)), 2);
    // the increment expires first, taking back 3 and leaving the decrement
    assert_eq!(h.samples_at(at_ms(11)), usize::MAX);
    // once the decrement expires too, the window is empty again
    assert_eq!(h.samples_at(at_ms(16)), 0);
}

#[test]
fn simple_moving_queries() {
    let mut h = Simple::new(101, 1, Interval::from_seconds(60));
    h.incr(5, 2);
    h.incr(150, 1);
    assert_eq!(h.count(5), 2);
    assert_eq!(h.too_high(), 1);
    assert_eq!(h.too_low(), 0);
    assert_eq!(h.max(), 101);
    assert_eq!(h.min(), 0);
    assert_eq!(h.precision(), 1);
    assert_eq!(h.buckets(), 19);
    assert_eq!(h.sum(), Some(10));
    assert_eq!(h.mode(), Some(2));
    assert_eq!(h.highest_count(), 2);
    assert_eq!(h.value_at_rank(1), 5);
    assert_eq!(h.value_at_rank(3), 101);
    h.decr(5, 2);
    assert_eq!(h.count(5), 0);
    h.clear();
    assert_eq!(h.samples(), 0);
}

#[test]
fn simple_out_of_bounds() {
    let mut heatmap = SimpleHeatmap::new(60 * SECOND, 2, SECOND, 10 * SECOND);
    heatmap.latch();
    assert_eq!(heatmap.samples(), 0);
    heatmap.incr(time::precise_time_ns() as usize - 11 * SECOND, 1, 1);
    assert_eq!(heatmap.samples(), 0);
    heatmap.incr(time::precise_time_ns() as usize + 11 * SECOND, 1, 1);
    assert_eq!(heatmap.samples(), 0);
}

#[test]
fn simple_heatmap_counts_now() {
    let mut heatmap = SimpleHeatmap::new(1_000_000, 3, SECOND, 60 * SECOND);
    heatmap.incr(time::precise_time_ns() as usize, 100, 1);
    assert_eq!(heatmap.samples(), 1);
    assert_eq!(heatmap.slices(), 60);
    assert_eq!(heatmap.resolution(), SECOND);
}

#[test]
fn simple_heatmap_latch_moves_and_empties() {
    let mut heatmap = SimpleHeatmap::starting_at(1000, 2, 10, 50, 100, 7);
    assert_eq!(heatmap.slices(), 5);
    heatmap.incr(105, 7, 1);
    heatmap.incr(145, 7, 2);
    heatmap.incr(100, 7, 1);
    assert_eq!(heatmap.samples(), 3);
    assert_eq!(heatmap.highest_count(), 2);
    heatmap.latch_at(141);
    assert_eq!(heatmap.begin_precise(), 110);
    assert_eq!(heatmap.begin_utc(), 17);
    assert_eq!(heatmap.samples(), 2);
    let newest = heatmap.slice(4).unwrap();
    assert_eq!(newest.begin_precise(), 150);
    assert_eq!(newest.end_precise(), 160);
    assert_eq!(newest.begin_utc(), 57);
    assert_eq!(newest.end_utc(), 67);
    assert_eq!(newest.histogram().samples(), 0);
    assert!(heatmap.slice(5).is_none());
    heatmap.decr(145, 7, 2);
    assert_eq!(heatmap.samples(), 0);
    heatmap.incr(150, 7, 1);
    heatmap.latch_at(10_000);
    assert_eq!(heatmap.samples(), 0);
    assert_eq!(heatmap.begin_precise(), 9_970);
    assert_eq!(heatmap.buckets(), 190);
}

#[test]
fn simple_moving_current_holds_the_window() {
    let mut h = Simple::new(10, 3, Interval::from_seconds(60));
    h.incr(1, 2);
    h.incr(4, 1);
    let current = h.current();
    assert_eq!(current.samples(), 3);
    assert_eq!(current.count(4), 1);
}
