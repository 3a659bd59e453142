use rpcperf::heatmap::{span_start, Heatmap, SECOND};

#[test]
fn mod_out_of_bounds() {
    let mut heatmap = Heatmap::new(60 * SECOND, 2, SECOND, 10 * SECOND);
    heatmap.latch();
    assert_eq!(heatmap.total_count(), 0);
    heatmap.increment(time::precise_time_ns() - 11 * SECOND, 1, 1);
    assert_eq!(heatmap.total_count(), 0);
    heatmap.increment(time::precise_time_ns() + 11 * SECOND, 1, 1);
    assert_eq!(heatmap.total_count(), 0);
}

#[test]
fn heatmap_counts_now() {
    let mut heatmap = Heatmap::new(1_000_000, 3, SECOND, 60 * SECOND);
    heatmap.increment(time::precise_time_ns(), 100, 1);
    assert_eq!(heatmap.total_count(), 1);
}

#[test]
fn heatmap_highest_count() {
    let mut heatmap = Heatmap::new(1_000_000, 2, SECOND, 60 * SECOND);
    for v in 0..100 {
        heatmap.increment(time::precise_time_ns(), v, v);
    }
    assert_eq!(heatmap.highest_count(), 99);
}

#[test]
fn heatmap_shape() {
    let heatmap = Heatmap::new(1_000_000, 2, SECOND, 60 * SECOND);
    assert_eq!(heatmap.slices(), 60);
    assert_eq!(heatmap.buckets(), 461);
    assert_eq!(heatmap.resolution(), SECOND);
    assert!(heatmap.begin_precise() < time::precise_time_ns());
}

#[test]
fn heatmap_slot_boundaries() {
    let mut heatmap = Heatmap::starting_at(1000, 2, 10, 50, 100, 5_000);
    assert_eq!(heatmap.slices(), 5);
    // the start of the span is excluded, the end too
    heatmap.increment(100, 1, 1);
    heatmap.increment(150, 1, 1);
    assert_eq!(heatmap.total_count(), 0);
    heatmap.increment(101, 1, 1);
    heatmap.increment(149, 1, 2);
    assert_eq!(heatmap.total_count(), 3);
    let first = heatmap.slice(0).unwrap();
    assert_eq!(first.begin_precise(), 100);
    assert_eq!(first.end_precise(), 110);
    assert_eq!(first.begin_utc(), 5_000);
    assert_eq!(first.end_utc(), 5_010);
    assert_eq!(first.histogram().counted(), 1);
    let last = heatmap.slice(4).unwrap();
    assert_eq!(last.begin_precise(), 140);
    assert_eq!(last.histogram().counted(), 2);
    assert!(heatmap.slice(5).is_none());
    assert_eq!(heatmap.begin_utc(), 5_000);
}

#[test]
fn heatmap_partial_span() {
    // a span of 45 with slices of 10 keeps four slices, and the span ends
    // at 45
    let mut heatmap = Heatmap::starting_at(1000, 2, 10, 45, 0, 0);
    assert_eq!(heatmap.slices(), 4);
    assert_eq!(heatmap.slice(3).unwrap().end_precise(), 40);
    // a time past the last whole slice wraps round to the oldest slice's place
    heatmap.increment(42, 5, 1);
    assert_eq!(heatmap.total_count(), 1);
    assert_eq!(heatmap.slice(0).unwrap().histogram().counted(), 1);
    // the end of the span is outside it
    heatmap.increment(45, 5, 1);
    assert_eq!(heatmap.total_count(), 1);
}

#[test]
fn heatmap_span_start_from_clock_readings() {
    // 30.0000005 seconds past the top of the minute
    assert_eq!(span_start(100 * SECOND, 500, 30, 10, u64::MAX), 70 * SECOND - 500);
    // the precise clock reads less than the time since the minute began
    assert_eq!(span_start(5, 0, 1, 10, u64::MAX), 0);
    // the span must end by the limit
    assert_eq!(span_start(u64::MAX, 0, 0, 10, u64::MAX), u64::MAX - 10);
    assert_eq!(span_start(2000, 0, 0, 100, 1000), 900);
}

#[test]
fn heatmap_latch_moves_and_empties() {
    let mut heatmap = Heatmap::starting_at(1000, 2, 10, 50, 100, 0);
    heatmap.increment(105, 7, 1);
    heatmap.increment(145, 7, 1);
    assert_eq!(heatmap.total_count(), 2);
    // the newest slice starts at 140; moving to 141 lets the oldest go
    heatmap.latch_at(141);
    assert_eq!(heatmap.begin_precise(), 110);
    assert_eq!(heatmap.total_count(), 1);
    assert_eq!(heatmap.slice(4).unwrap().begin_precise(), 150);
    assert_eq!(heatmap.slice(4).unwrap().histogram().counted(), 0);
    assert_eq!(heatmap.slice(3).unwrap().histogram().counted(), 1);
    // a time before the newest slice moves nothing
    heatmap.latch_at(100);
    assert_eq!(heatmap.begin_precise(), 110);
    // moving past the whole span ages every sample out
    heatmap.latch_at(1_000);
    assert_eq!(heatmap.total_count(), 0);
    assert_eq!(heatmap.begin_precise(), 970);
}

#[test]
fn heatmap_decrement() {
    let mut heatmap = Heatmap::starting_at(1000, 2, 10, 50, 100, 0);
    heatmap.increment(120, 5, 3);
    heatmap.decrement(120, 5, 1);
    assert_eq!(heatmap.total_count(), 2);
    heatmap.decrement(500, 5, 1);
    assert_eq!(heatmap.total_count(), 2);
    assert_eq!(heatmap.highest_count(), 2);
}
