use rpcperf::ddsketch::error::{DDSketchError, DDSketchErrorKind};
use rpcperf::metrics::error::{MetricError, MetricErrorData, SummaryError};
use rpcperf::stats::Stat;
use rpcperf::flag::Bool;
use rpcperf::metrics::instant::{Instant, Interval};
use rpcperf::metrics::metadata::{create_metadata, Metadata};
use rpcperf::metrics::percentile::Percentile;
use rpcperf::metrics::MetricType;
use rpcperf::saturating::{CounterPrimitive, Saturating};
use rpcperf::wrapper::Wrapper;

#[test]
fn flip() {
    let mut flag = Bool::new(true);
    assert_eq!(flag.get(), true);
    flag.set(false);
    assert_eq!(flag.get(), false);
    flag.set(true);
    assert_eq!(flag.get(), true);
}

#[test]
fn wrapper_holds_its_value() {
    let mut w = Wrapper::new(5u32);
    assert_eq!(*w.get(), 5);
    *w.get_mut() = 9;
    assert_eq!(*w.get(), 9);
}

#[test]
fn saturating_unsigned() {
    assert_eq!(Saturating::saturating_add(&250u8, 10), 255);
    assert_eq!(Saturating::saturating_sub(&5u8, 10), 0);
    assert_eq!(Saturating::saturating_add(&1u64, 2), 3);
    assert_eq!(CounterPrimitive::saturating_add(u32::MAX, 1), u32::MAX);
    assert_eq!(CounterPrimitive::saturating_sub(0usize, 1), 0);
    assert_eq!(CounterPrimitive::saturating_sub(10u16, 3), 7);
}

#[test]
fn saturating_signed() {
    assert_eq!(Saturating::saturating_add(&120i8, 10), 127);
    assert_eq!(Saturating::saturating_add(&-120i8, -10), -128);
    assert_eq!(Saturating::saturating_sub(&-120i8, 10), -128);
    assert_eq!(Saturating::saturating_sub(&120i8, -10), 127);
    assert_eq!(Saturating::saturating_sub(&5i32, 7), -2);
    assert_eq!(CounterPrimitive::saturating_add(i64::MAX, 1), i64::MAX);
    assert_eq!(CounterPrimitive::saturating_sub(i64::MIN, 1), i64::MIN);
    assert_eq!(CounterPrimitive::saturating_add(-3isize, 1), -2);
    assert_eq!(CounterPrimitive::saturating_sub(i16::MIN, -1), i16::MIN + 1);
}

#[test]
fn percentile_bounds() {
    assert_eq!(Percentile::new(1_000_000_001), None);
    assert_eq!(Percentile::new(1_000_000_000), Some(Percentile::maximum()));
    assert_eq!(Percentile::new(0), Some(Percentile::minimum()));
    assert_eq!(Percentile::new(123).map(|p| p.into_inner()), Some(123));
}

#[test]
fn percentile_constants() {
    assert_eq!(Percentile::minimum().into_inner(), 0);
    assert_eq!(Percentile::maximum().into_inner(), 1_000_000_000);
    assert_eq!(Percentile::p001().into_inner(), 100_000);
    assert_eq!(Percentile::p01().into_inner(), 1_000_000);
    assert_eq!(Percentile::p1().into_inner(), 10_000_000);
    assert_eq!(Percentile::p5().into_inner(), 50_000_000);
    assert_eq!(Percentile::p10().into_inner(), 100_000_000);
    assert_eq!(Percentile::p25().into_inner(), 250_000_000);
    assert_eq!(Percentile::p50().into_inner(), 500_000_000);
    assert_eq!(Percentile::p75().into_inner(), 750_000_000);
    assert_eq!(Percentile::p90().into_inner(), 900_000_000);
    assert_eq!(Percentile::p95().into_inner(), 950_000_000);
    assert_eq!(Percentile::p99().into_inner(), 990_000_000);
    assert_eq!(Percentile::p999().into_inner(), 999_000_000);
    assert_eq!(Percentile::p9999().into_inner(), 999_900_000);
    assert!(Percentile::p50() < Percentile::p99());
}

#[test]
fn interval_conversions() {
    assert_eq!(Interval::from_seconds(3).as_nanos(), 3_000_000_000);
    assert_eq!(Interval::from_millis(3).as_nanos(), 3_000_000);
    assert_eq!(Interval::from_micros(3).as_nanos(), 3_000);
    assert_eq!(Interval::from_nanos(3).as_nanos(), 3);
    assert_eq!(Interval::from_seconds(u64::MAX).as_nanos(), u64::MAX);
    assert_eq!(Interval::from_millis(u64::MAX / 1_000_000 + 1).as_nanos(), u64::MAX);
    assert_eq!(Interval::from_micros(u64::MAX / 1_000).as_nanos(), u64::MAX / 1_000 * 1_000);
    let i = Interval::from_nanos(5_999_999_999);
    assert_eq!(i.as_seconds(), 5);
    assert_eq!(i.as_millis(), 5_999);
    assert_eq!(i.as_micros(), 5_999_999);
}

#[test]
fn instant_difference_saturates() {
    let a = Instant::from_nanos(10);
    let b = Instant::from_nanos(25);
    assert_eq!((b - a).as_nanos(), 15);
    assert_eq!((a - b).as_nanos(), 0);
    let now = Instant::now();
    assert!(Instant::now() >= now);
}

#[test]
fn basic_metadata() {
    let data = create_metadata(&[
        ("str", "x"),
        ("a", "b"),
        ("units", "ms"),
        ("status", "is a test"),
    ]);

    assert_eq!(&data["a"], "b");
    assert_eq!(&data["units"], "ms");
    assert_eq!(&data["status"], "is a test");
    assert_eq!(&data["str"], "x");
    assert_eq!(data.get("a").unwrap(), "b");
    assert_eq!(data.get("status_"), None);
    assert_eq!(data.get("not present"), None);
}

#[test]
fn struct_style_metadata() {
    let data = create_metadata(&[("unit", "ms"), ("status", "dead"), ("test", "true")]);

    assert_eq!(&data["unit"], "ms");
    assert_eq!(&data["status"], "dead");
    assert_eq!(&data["test"], "true");
    assert_eq!(data.get("u"), None);
    assert_eq!(data.get(""), None);
}

#[test]
fn metadata_first_match_and_listing() {
    let data = create_metadata(&[("k", "first"), ("k", "second")]);
    assert_eq!(data.get("k"), Some("first"));
    assert_eq!(data.iter(), vec![("k", "first"), ("k", "second")]);
    assert_eq!(Metadata::empty().get("k"), None);
    assert!(Metadata::default().iter().is_empty());
}

#[test]
fn metric_type_names() {
    assert_eq!(MetricType::Counter.name(), "counter");
    assert_eq!(MetricType::Gauge.name(), "gauge");
    assert_eq!(MetricType::Summary.name(), "summary");
}

#[test]
fn ddsketch_error_kinds() {
    let e = DDSketchError::new(DDSketchErrorKind::InvalidAlpha);
    assert_eq!(e.kind(), DDSketchErrorKind::InvalidAlpha);
    assert_eq!(e.message(), "Relative error bound outside the range (0, 1)");
    let e = DDSketchError::new(DDSketchErrorKind::TooManyBuckets);
    assert_eq!(e.kind(), DDSketchErrorKind::TooManyBuckets);
    assert_eq!(e.message(), "DDSketch would use too many buckets");
    let e = DDSketchError::new(DDSketchErrorKind::Unmergeable);
    assert_eq!(e.kind(), DDSketchErrorKind::Unmergeable);
    assert_eq!(e.message(), "Cannot merge sketches with different numbers of buckets");
}

#[test]
fn stat_names() {
    assert_eq!(Stat::Window.name(), "window");
    assert_eq!(Stat::ResponseOkHit.name(), "response_ok_hit");
    assert_eq!(Stat::SocketCreate.name(), "socket_create");
    assert_eq!(Stat::ConnectTimeout.name(), "connect_timeout");
}

#[test]
fn metric_error_messages() {
    let e = MetricError { metric: "latency", data: MetricErrorData::InvalidUnsignedValue(-5) };
    assert_eq!(
        e.message(),
        "Attempted to write a value '-5' to the metric 'latency' \\\n                     but it could not be converted to a u64"
    );
    let e = MetricError { metric: "m", data: MetricErrorData::InvalidUnsignedValue(i64::MIN) };
    assert!(e.message().contains("'-9223372036854775808'"));
    let e = MetricError { metric: "m", data: MetricErrorData::InvalidSignedValue(u64::MAX) };
    assert!(e.message().starts_with("Attempted to write a value '18446744073709551615' to the metric 'm'"));
    let e = MetricError {
        metric: "m",
        data: MetricErrorData::WrongType { expected: MetricType::Counter, found: MetricType::Gauge },
    };
    assert_eq!(e.message(), "Expected metric 'm' to be a counter but it was actually a gauge");
    let e = MetricError { metric: "m", data: MetricErrorData::InvalidIncrement { ty: MetricType::Summary } };
    assert!(e.message().ends_with("is a summary which does not support being incremented"));
    assert_eq!(SummaryError::Unsupported.message(), "operation not supported");
    assert_eq!(SummaryError::Custom("boom".to_owned()).message(), "boom");
}

#[test]
fn metric_error_constructors() {
    let e = MetricError::invalid_unsigned("a", -1);
    assert_eq!(e.metric, "a");
    assert!(matches!(e.data, MetricErrorData::InvalidUnsignedValue(-1)));
    assert!(matches!(MetricError::invalid_signed("a", 7).data, MetricErrorData::InvalidSignedValue(7)));
    assert!(matches!(
        MetricError::invalid_increment("a", MetricType::Summary).data,
        MetricErrorData::InvalidIncrement { ty: MetricType::Summary }
    ));
    assert!(matches!(
        MetricError::invalid_decrement("a", MetricType::Counter).data,
        MetricErrorData::InvalidDecrement { ty: MetricType::Counter }
    ));
    assert!(matches!(
        MetricError::wrong_type("a", MetricType::Gauge, MetricType::Counter).data,
        MetricErrorData::WrongType { expected: MetricType::Gauge, found: MetricType::Counter }
    ));
}

#[test]
fn interval_order_follows_nanoseconds() {
    for &(a, b) in &[(0u64, 0u64), (1, 2), (5, 3), (u64::MAX, 0), (7, 7)] {
        let (x, y) = (Interval::from_nanos(a), Interval::from_nanos(b));
        assert_eq!(x.as_nanos(), a);
        assert_eq!(x <= y, a <= b);
        assert_eq!(x < y, a < b);
        assert_eq!(x == y, a == b);
    }
}

#[test]
fn percentile_order_follows_billionths() {
    let values = [0u32, 1, 500_000_000, 999_999_999, 1_000_000_000];
    for &a in &values {
        for &b in &values {
            let (p, q) = (Percentile::new(a).unwrap(), Percentile::new(b).unwrap());
            assert_eq!(p <= q, a <= b);
            assert_eq!(p < q, a < b);
            assert_eq!(p == q, a == b);
        }
    }
    assert!(Percentile::minimum() < Percentile::maximum());
}
