use rpcperf::metrics::error::{MetricErrorData, RegisterError, UnregisterError};
use rpcperf::metrics::metadata::{create_metadata, Metadata};
use rpcperf::metrics::registry::{Metric, RecordAction, Registry};
use rpcperf::metrics::value::MetricValue;
use rpcperf::metrics::MetricType;

#[test]
fn registry_register_twice_is_an_error() {
    let mut r: Registry<u64, i64, Vec<u64>> = Registry::new();
    assert!(r.register_counter("requests".to_string(), 1, Metadata::empty()).is_ok());
    assert!(matches!(
        r.register_gauge("requests".to_string(), -1, Metadata::empty()),
        Err(RegisterError::MetricAlreadyExists)
    ));
    assert!(r.register_summary("latency".to_string(), vec![], create_metadata(&[("unit", "ns")])).is_ok());
    assert_eq!(r.len(), 2);
    let m = r.get("latency").unwrap();
    assert_eq!(m.ty(), MetricType::Summary);
    assert_eq!(m.metadata().get("unit"), Some("ns"));
    assert!(m.as_summary().is_some());
    assert!(m.as_counter().is_none());
    assert_eq!(r.get("requests").unwrap().as_counter(), Some(&1));
    assert!(matches!(r.get("requests").unwrap().metric(), Metric::Counter(1)));
}

#[test]
fn registry_unregister_unknown_is_an_error() {
    let mut r: Registry<u64, i64, u8> = Registry::new();
    assert!(matches!(r.unregister_metric("nothing"), Err(UnregisterError::NoSuchMetric)));
    r.register_gauge("temp".to_string(), 3, Metadata::empty()).unwrap();
    assert!(r.unregister_metric("temp").is_ok());
    assert!(r.get("temp").is_none());
    assert!(matches!(r.unregister_metric("temp"), Err(UnregisterError::NoSuchMetric)));
    assert!(r.register_counter("temp".to_string(), 4, Metadata::empty()).is_ok());
}

#[test]
fn registry_checks_kind() {
    let mut r: Registry<u64, i64, u8> = Registry::new();
    r.register_gauge("g".to_string(), 0, Metadata::empty()).unwrap();
    assert!(r.check_kind("x", MetricType::Counter).is_none());
    assert!(matches!(r.check_kind("g", MetricType::Gauge), Some(Ok(()))));
    let e = r.check_kind("g", MetricType::Counter).unwrap().unwrap_err();
    assert_eq!(e.metric, "g");
    assert!(matches!(
        e.data,
        MetricErrorData::WrongType { expected: MetricType::Counter, found: MetricType::Gauge }
    ));
}

fn recording_registry() -> Registry<u64, i64, u8> {
    let mut r: Registry<u64, i64, u8> = Registry::new();
    r.register_counter("requests".to_string(), 0, Metadata::empty()).unwrap();
    r.register_gauge("open".to_string(), 0, Metadata::empty()).unwrap();
    r.register_summary("latency".to_string(), 0, Metadata::empty()).unwrap();
    r
}

#[test]
fn registry_recording_to_unknown_name_is_no_error() {
    let r = recording_registry();
    assert!(r.record_value("missing", MetricValue::Unsigned(1), 1).is_none());
    assert!(r.record_increment("missing", MetricValue::Signed(-1)).is_none());
    assert!(r.record_decrement("missing", MetricValue::Signed(1)).is_none());
    assert!(r.record_counter_value("missing", 3).is_none());
    assert!(r.record_gauge_value("missing", 3).is_none());
}

#[test]
fn registry_recording_decides_by_kind() {
    let r = recording_registry();
    assert_eq!(r.record_value("requests", MetricValue::Signed(7), 1).unwrap().unwrap(), RecordAction::CounterStore(7));
    assert_eq!(r.record_value("open", MetricValue::Unsigned(7), 1).unwrap().unwrap(), RecordAction::GaugeStore(7));
    assert_eq!(
        r.record_value("latency", MetricValue::Unsigned(250), 4).unwrap().unwrap(),
        RecordAction::SummaryRecord(250, 4)
    );
    assert_eq!(r.record_increment("requests", MetricValue::Unsigned(2)).unwrap().unwrap(), RecordAction::CounterAdd(2));
    assert_eq!(r.record_increment("open", MetricValue::Signed(-2)).unwrap().unwrap(), RecordAction::GaugeAdd(-2));
    assert_eq!(r.record_decrement("open", MetricValue::Signed(5)).unwrap().unwrap(), RecordAction::GaugeSub(5));
    assert_eq!(r.record_counter_value("requests", 9).unwrap().unwrap(), RecordAction::CounterStore(9));
    assert_eq!(r.record_gauge_value("open", -9).unwrap().unwrap(), RecordAction::GaugeStore(-9));
}

#[test]
fn registry_recording_errors() {
    let r = recording_registry();
    let e = r.record_value("requests", MetricValue::Signed(-5), 1).unwrap().unwrap_err();
    assert_eq!(e.metric, "requests");
    assert!(matches!(e.data, MetricErrorData::InvalidUnsignedValue(-5)));
    let e = r.record_value("open", MetricValue::Unsigned(u64::MAX), 1).unwrap().unwrap_err();
    assert!(matches!(e.data, MetricErrorData::InvalidSignedValue(u64::MAX)));
    let e = r.record_value("latency", MetricValue::Signed(-1), 1).unwrap().unwrap_err();
    assert!(matches!(e.data, MetricErrorData::InvalidUnsignedValue(-1)));
    let e = r.record_increment("latency", MetricValue::Unsigned(1)).unwrap().unwrap_err();
    assert!(matches!(e.data, MetricErrorData::InvalidIncrement { ty: MetricType::Summary }));
    let e = r.record_decrement("requests", MetricValue::Unsigned(1)).unwrap().unwrap_err();
    assert!(matches!(e.data, MetricErrorData::InvalidDecrement { ty: MetricType::Counter }));
    let e = r.record_decrement("open", MetricValue::Unsigned(u64::MAX)).unwrap().unwrap_err();
    assert!(matches!(e.data, MetricErrorData::InvalidSignedValue(u64::MAX)));
    let e = r.record_counter_value("open", 1).unwrap().unwrap_err();
    assert!(matches!(
        e.data,
        MetricErrorData::WrongType { expected: MetricType::Counter, found: MetricType::Gauge }
    ));
    let e = r.record_gauge_value("latency", 1).unwrap().unwrap_err();
    assert!(matches!(
        e.data,
        MetricErrorData::WrongType { expected: MetricType::Gauge, found: MetricType::Summary }
    ));
}
