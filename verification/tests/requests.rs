use rpcperf::protocol::thrift::Response;
use rpcperf::protocol::{Parse, ParsedResponse};
use rpcperf::request::config::BenchmarkConfig;
use rpcperf::request::memcache;
use rpcperf::request::thrift::{generic, mk_param, ping, Buffer, Parameter, Value};

#[test]
fn memcache_simple_requests() {
    assert_eq!(memcache::verbosity(4), "verbosity 4\r\n");
    assert_eq!(memcache::verbosity(0), "verbosity 0\r\n");
    assert_eq!(memcache::version(), "version\r\n");
    assert_eq!(memcache::quit(), "quit\r\n");
    assert_eq!(memcache::flush_all(), "flush_all\r\n");
}

#[test]
fn memcache_storage_requests() {
    assert_eq!(memcache::set("key", "value", None, None), "set key 0 0 5\r\nvalue\r\n");
    assert_eq!(memcache::add("key", "value", None, None), "add key 0 0 5\r\nvalue\r\n");
    assert_eq!(memcache::replace("key", "value", None, None), "replace key 0 0 5\r\nvalue\r\n");
    assert_eq!(memcache::append("key", "value", None, None), "append key 0 0 5\r\nvalue\r\n");
    assert_eq!(memcache::prepend("key", "value", None, None), "prepend key 0 0 5\r\nvalue\r\n");
    assert_eq!(memcache::cas("key", "value", None, None, 100_u64), "cas key 0 0 5 100\r\nvalue\r\n");
}

#[test]
fn memcache_storage_fields_in_order() {
    // flags come before the expiry time
    assert_eq!(memcache::set("k", "", Some(30), Some(7)), "set k 7 30 0\r\n\r\n");
    assert_eq!(memcache::cas("k", "ab", Some(4294967295), Some(0), 18446744073709551615),
        "cas k 0 4294967295 2 18446744073709551615\r\nab\r\n"
    );
    // the length counts bytes, not characters
    assert_eq!(memcache::set("k", "é", None, None), "set k 0 0 2\r\né\r\n");
}

#[test]
fn memcache_keyed_requests() {
    assert_eq!(memcache::incr("key", 1), "incr key 1\r\n");
    assert_eq!(memcache::incr("key", 1000), "incr key 1000\r\n");
    assert_eq!(memcache::decr("key", 1), "decr key 1\r\n");
    assert_eq!(memcache::decr("key", 1000), "decr key 1000\r\n");
    assert_eq!(memcache::touch("key", None), "touch key 0\r\n");
    assert_eq!(memcache::touch("key", Some(60)), "touch key 60\r\n");
    assert_eq!(memcache::get("key"), "get key\r\n");
    assert_eq!(memcache::gets("key"), "gets key\r\n");
    assert_eq!(memcache::delete("key"), "delete key\r\n");
}

#[test]
fn thrift_ping() {
    assert_eq!(
        generic("ping", 0, &Vec::new()),
        vec![0, 0, 0, 17, 128, 1, 0, 1, 0, 0, 0, 4, 112, 105, 110, 103, 0, 0, 0, 0, 0]
    );
    assert_eq!(
        ping(),
        [0, 0, 0, 17, 128, 1, 0, 1, 0, 0, 0, 4, 112, 105, 110, 103, 0, 0, 0, 0, 0]
    );
}

#[test]
fn thrift_thrift_add() {
    let mut payload = Vec::new();
    payload.push(mk_param(1, Value::Int32(1)));
    payload.push(mk_param(2, Value::Int32(1)));

    assert_eq!(
        generic("add", 0, &payload),
        vec![
            0, 0, 0, 30, 128, 1, 0, 1, 0, 0, 0, 3, 97, 100, 100, 0, 0, 0, 0, 8, 0, 1, 0, 0, 0, 1,
            8, 0, 2, 0, 0, 0, 1, 0
        ]
    );
}

#[test]
fn thrift_thrift_subtract() {
    let mut payload = Vec::new();
    payload.push(mk_param(1, Value::Int32(1)));
    payload.push(mk_param(2, Value::Struct));
    payload.push(mk_param(1, Value::Int32(15)));
    payload.push(mk_param(2, Value::Int32(10)));
    payload.push(mk_param(3, Value::Int32(2)));
    payload.push(mk_param(0, Value::Stop));

    assert_eq!(
        generic("calculate", 0, &payload),
        vec![
            0, 0, 0, 54, 128, 1, 0, 1, 0, 0, 0, 9, 99, 97, 108, 99, 117, 108, 97, 116, 101, 0, 0,
            0, 0, 8, 0, 1, 0, 0, 0, 1, 12, 0, 2, 8, 0, 1, 0, 0, 0, 15, 8, 0, 2, 0, 0, 0, 10, 8, 0,
            3, 0, 0, 0, 2, 0, 0
        ]
    );
}

#[test]
fn thrift_value_kinds() {
    let payload = vec![
        mk_param(1, Value::Bool(true)),
        mk_param(2, Value::Byte(7)),
        mk_param(3, Value::Int16(-2)),
        mk_param(4, Value::Int64(1)),
        mk_param(5, Value::Double(1.5f64.to_bits())),
        mk_param(6, Value::String("hi".to_owned())),
        mk_param(7, Value::MapHeader),
        mk_param(8, Value::SetHeader),
        mk_param(9, Value::List("string".to_owned(), 2)),
        Parameter { id: None, value: Value::Bool(false) },
        Parameter { id: None, value: Value::Void },
    ];
    let body: Vec<u8> = vec![
        128, 1, 0, 1, 0, 0, 0, 1, 120, 0, 0, 0, 5, // header, method "x", sequence id 5
        2, 0, 1, 1, // bool
        3, 0, 2, 7, // byte
        6, 0, 3, 255, 254, // i16
        10, 0, 4, 0, 0, 0, 0, 0, 0, 0, 1, // i64
        4, 0, 5, 63, 248, 0, 0, 0, 0, 0, 0, // double
        11, 0, 6, 0, 0, 0, 2, 104, 105, // string
        13, 0, 7, // map
        14, 0, 8, // set
        15, 0, 9, 11, 0, 0, 0, 2, // list of strings
        0, // bool without id
        1, // void
        0, // stop
    ];
    let mut expected = vec![0, 0, 0, body.len() as u8];
    expected.extend_from_slice(&body);
    assert_eq!(generic("x", 5, &payload), expected);
}

#[test]
fn thrift_buffer_steps() {
    let b = Buffer::new();
    assert_eq!(b.into_vec(), vec![0, 0, 0, 0]);

    let mut b = Buffer::new();
    b.protocol_header();
    assert_eq!(b.into_vec(), vec![0, 0, 0, 0, 128, 1, 0, 1]);

    let mut b = Buffer::new();
    b.sequence_id(0_i32);
    b.frame();
    assert_eq!(b.into_vec(), vec![0, 0, 0, 4, 0, 0, 0, 0]);

    let mut b = Buffer::new();
    b.method_name("ping");
    assert_eq!(b.into_vec(), vec![0, 0, 0, 0, 0, 0, 0, 4, 112, 105, 110, 103]);

    let mut b = Buffer::new();
    b.sequence_id(-1_i32);
    assert_eq!(b.into_vec(), vec![0, 0, 0, 0, 255, 255, 255, 255]);

    let mut b = Buffer::new();
    b.stop();
    assert_eq!(b.into_vec(), vec![0, 0, 0, 0, 0]);
}

#[test]
fn thrift_request_is_a_complete_frame() {
    let request = generic("calculate", 3, &vec![mk_param(1, Value::Int32(15))]);
    assert_eq!(Response { response: &request }.parse(), ParsedResponse::Okay);
    assert_eq!(
        Response { response: &request[..request.len() - 1] }.parse(),
        ParsedResponse::Incomplete
    );
}

#[test]
fn tests_thrift_add() {
    let mut payload = Vec::new();
    payload.push(mk_param(1, Value::Int32(1)));
    payload.push(mk_param(2, Value::Int32(1)));

    assert_eq!(
        generic("add", 0, &mut payload),
        vec![
            0, 0, 0, 30, 128, 1, 0, 1, 0, 0, 0, 3, 97, 100, 100, 0, 0, 0, 0, 8, 0, 1, 0, 0, 0, 1,
            8, 0, 2, 0, 0, 0, 1, 0
        ]
    );
}

#[test]
fn tests_thrift_subtract() {
    let mut payload = Vec::new();
    payload.push(mk_param(1, Value::Int32(1)));
    payload.push(mk_param(2, Value::Struct));
    payload.push(mk_param(1, Value::Int32(15)));
    payload.push(mk_param(2, Value::Int32(10)));
    payload.push(mk_param(3, Value::Int32(2)));
    payload.push(mk_param(0, Value::Stop));

    assert_eq!(
        generic("calculate", 0, &mut payload),
        vec![
            0, 0, 0, 54, 128, 1, 0, 1, 0, 0, 0, 9, 99, 97, 108, 99, 117, 108, 97, 116, 101, 0, 0,
            0, 0, 8, 0, 1, 0, 0, 0, 1, 12, 0, 2, 8, 0, 1, 0, 0, 0, 15, 8, 0, 2, 0, 0, 0, 10, 8, 0,
            3, 0, 0, 0, 2, 0, 0
        ]
    );
}

#[test]
fn benchmark_config_settings() {
    let mut config: BenchmarkConfig<&str, u8> = BenchmarkConfig::new("memcache");
    assert_eq!(config.connections, 1);
    assert_eq!(config.threads, 1);
    assert_eq!(config.duration, 60);
    assert_eq!(config.windows, 5);
    assert!(!config.tcp_nodelay);
    assert!(config.ipv4 && config.ipv6);
    assert_eq!(config.timeout, None);
    assert_eq!(config.connect_timeout(), None);
    assert_eq!(config.set_poolsize(8).connections, 8);
    assert_eq!(config.set_threads(2).threads, 2);
    assert_eq!(config.set_duration(30).duration, 30);
    assert_eq!(config.set_windows(3).windows, 3);
    assert!(config.set_tcp_nodelay(true).tcp_nodelay);
    config.set_stats(7);
    assert_eq!(config.protocol_config, "memcache");
    assert_eq!(config.connections, 8);
}
