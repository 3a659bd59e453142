use rpcperf::workload::{
    random_string, rate_to_interval, seeded_string, Parameter, Preparation, Protocol, Query,
    Workload,
};

#[test]
fn protocol_names() {
    assert_eq!(Protocol::new("echo"), Ok(Protocol::Echo));
    assert_eq!(Protocol::new("memcache"), Ok(Protocol::Memcache));
    assert_eq!(Protocol::new("ping"), Ok(Protocol::Ping));
    assert_eq!(Protocol::new("redis"), Ok(Protocol::Redis));
    assert_eq!(Protocol::new("thrift"), Ok(Protocol::Thrift));
    assert_eq!(Protocol::new("http"), Err("unknown protocol"));
    assert_eq!(Protocol::new(""), Err("unknown protocol"));
    assert_eq!(Protocol::new("Echo"), Err("unknown protocol"));
}

#[test]
fn intervals_from_rates() {
    assert_eq!(rate_to_interval(0), 0);
    assert_eq!(rate_to_interval(1), 1_000_000_000);
    assert_eq!(rate_to_interval(3), 333_333_333);
    assert_eq!(rate_to_interval(1_000_000_000), 1);
    assert_eq!(rate_to_interval(1_000_000_001), 0);
}

#[test]
fn seeded_strings() {
    assert_eq!(seeded_string(1, 0), "0");
    assert_eq!(seeded_string(5, 42), "00042");
    assert_eq!(seeded_string(2, 12345), "12");
    assert_eq!(seeded_string(0, 7), "");
}

#[test]
fn random_strings() {
    let s = random_string(64);
    assert_eq!(s.len(), 64);
    assert!(s.chars().all(|c| c.is_ascii_alphanumeric()));
    assert_eq!(random_string(0), "");
}

#[test]
fn default_parameter() {
    match Parameter::default() {
        Parameter::Static { size, seed } => {
            assert_eq!(size, 1);
            assert_eq!(seed, 0);
        }
        _ => panic!("default parameter is static"),
    }
}

fn memcache(command: &str) -> Workload {
    let mut w = Workload::new(Protocol::Memcache, command.to_owned(), Some(10));
    w.add_param(Parameter::Static { size: 3, seed: 7 });
    w.add_param(Parameter::Static { size: 2, seed: 5 });
    w
}

#[test]
fn workload_rate() {
    let w = Workload::new(Protocol::Ping, "ping".to_owned(), None);
    assert_eq!(w.rate(), 0);
    assert_eq!(w.interval(), 0);
    assert_eq!(memcache("get").interval(), 100_000_000);
}

#[test]
fn memcache_queries() {
    let mut w = memcache("set");
    assert!(w.can_query());
    match w.next_query() {
        Query::Bytes(b) => assert_eq!(b, b"set 007 0 0 2\r\n05\r\n".to_vec()),
        other => panic!("unexpected {:?}", other),
    }
    let mut w = memcache("gets");
    match w.next_query() {
        Query::Bytes(b) => assert_eq!(b, b"gets 007\r\n".to_vec()),
        other => panic!("unexpected {:?}", other),
    }
    let w = memcache("delete");
    assert!(!w.can_query());
}

#[test]
fn random_parameters_regenerate() {
    let mut w = Workload::new(Protocol::Echo, "echo".to_owned(), None);
    w.add_param(Parameter::Random { size: 8, regenerate: false });
    assert!(w.can_query());
    match w.next_query() {
        // not forced and not regenerating: still the empty initial value
        Query::Echo(v) => assert!(v.is_empty()),
        other => panic!("unexpected {:?}", other),
    }
    w.generate_values(true);
    match w.next_query() {
        Query::Echo(v) => {
            assert_eq!(v.len(), 8);
            assert!(v.iter().all(|b| b.is_ascii_alphanumeric()));
        }
        other => panic!("unexpected {:?}", other),
    }
}

#[test]
fn redis_and_thrift_queries() {
    let mut w = Workload::new(Protocol::Redis, "hset".to_owned(), None);
    w.add_param(Parameter::Static { size: 1, seed: 1 });
    w.add_param(Parameter::Static { size: 1, seed: 2 });
    assert!(!w.can_query());
    w.add_param(Parameter::Static { size: 1, seed: 3 });
    match w.next_query() {
        Query::RedisHset(a, b, c) => assert_eq!((a.as_str(), b.as_str(), c.as_str()), ("1", "2", "3")),
        other => panic!("unexpected {:?}", other),
    }
    let mut w = Workload::new(Protocol::Thrift, "ping".to_owned(), None);
    match w.next_query() {
        Query::Bytes(b) => assert_eq!(b, rpcperf::request::thrift::ping()),
        other => panic!("unexpected {:?}", other),
    }
    let w = Workload::new(Protocol::Unknown, "ping".to_owned(), None);
    assert!(!w.can_query());
}

#[test]
fn preparations() {
    let mut w = memcache("get");
    match w.prepare(Preparation::Flush) {
        Some(Query::Bytes(b)) => assert_eq!(b, b"flush_all\r\n".to_vec()),
        other => panic!("unexpected {:?}", other),
    }
    w.generate_values(true);
    match w.prepare(Preparation::Hit) {
        Some(Query::Bytes(b)) => assert_eq!(b, b"set 007 0 0 2\r\n05\r\n".to_vec()),
        other => panic!("unexpected {:?}", other),
    }
    let mut w = Workload::new(Protocol::Memcache, "get".to_owned(), None);
    w.add_param(Parameter::Static { size: 2, seed: 9 });
    w.generate_values(false);
    match w.prepare(Preparation::Hit) {
        Some(Query::Bytes(b)) => assert_eq!(b, b"set 09 0 0 0\r\n\r\n".to_vec()),
        other => panic!("unexpected {:?}", other),
    }
    let mut w = Workload::new(Protocol::Redis, "get".to_owned(), None);
    assert!(matches!(w.prepare(Preparation::Flush), Some(Query::RedisFlushAll)));
    assert!(matches!(w.prepare(Preparation::Hit), Some(Query::RedisFlushAll)));
    let mut w = Workload::new(Protocol::Ping, "ping".to_owned(), None);
    assert!(w.prepare(Preparation::Flush).is_none());
    assert!(w.prepare(Preparation::Hit).is_none());
    let mut w = memcache("set");
    assert!(w.prepare(Preparation::Hit).is_none());
}
