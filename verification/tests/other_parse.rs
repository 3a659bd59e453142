use rpcperf::protocol::{echo, ping, redis_owned, thrift, Parse, ParsedResponse};

#[test]
fn echo_test_parse_incomplete() {
    let r = echo::Response { response: &[0] };
    assert_eq!(r.parse(), ParsedResponse::Incomplete);

    let r = echo::Response { response: &[0, 1, 2, 3, 4, 5, 6] };
    assert_eq!(r.parse(), ParsedResponse::Incomplete);

    let r = echo::Response { response: &[0, 1, 2, 3, 4, 5, 6, 13] };
    assert_eq!(r.parse(), ParsedResponse::Incomplete);
}

#[test]
fn echo_test_parse_ok() {
    let r = echo::Response { response: &[0, 1, 2, 8, 84, 137, 127, 13, 10] };
    assert_eq!(r.parse(), ParsedResponse::Okay);
}

#[test]
fn echo_test_parse_error() {
    let r = echo::Response { response: "3421780262\r\n".as_bytes() };
    assert_eq!(r.parse(), ParsedResponse::Error("bad crc".to_string()));
}

#[test]
fn echo_classify_with_given_checksum() {
    let payload = [7u8, 1, 2, 3, 0xde, 0xad, 0xbe, 0xef, 13, 10];
    assert_eq!(echo::classify_echo(&payload, 0xdeadbeef), ParsedResponse::Okay);
    assert_eq!(
        echo::classify_echo(&payload, 0xdeadbeee),
        ParsedResponse::Error("bad crc".to_string())
    );
}

#[test]
fn test_parse_pong() {
    let r = ping::Response { response: "PONG" };
    assert_eq!(r.parse(), ParsedResponse::Incomplete);

    let r = ping::Response { response: "PONG\r\n" };
    assert_eq!(r.parse(), ParsedResponse::Okay);

    let r = ping::Response { response: "ERROR\r\n" };
    assert_eq!(r.parse(), ParsedResponse::Unknown);
}

#[test]
fn ping_edge_cases() {
    assert_eq!(ping::Response { response: "+PONG\r\n" }.parse(), ParsedResponse::Okay);
    assert_eq!(ping::Response { response: " PONG \r\n" }.parse(), ParsedResponse::Okay);
    assert_eq!(ping::Response { response: "PONG\r\nPONG\r\n" }.parse(), ParsedResponse::Unknown);
}

#[test]
fn thrift_test_parse_ok() {
    assert_eq!(thrift::Response { response: &[0, 0, 0, 1, 0] }.parse(), ParsedResponse::Okay);
    assert_eq!(thrift::Response { response: &[0, 0, 0, 2, 0, 1] }.parse(), ParsedResponse::Okay);
}

#[test]
fn thrift_test_parse_incomplete() {
    assert_eq!(thrift::Response { response: &[0, 0] }.parse(), ParsedResponse::Incomplete);
    assert_eq!(thrift::Response { response: &[0, 0, 0, 1] }.parse(), ParsedResponse::Incomplete);
    assert_eq!(thrift::Response { response: &[0, 0, 0, 2, 0] }.parse(), ParsedResponse::Incomplete);
}

#[test]
fn thrift_reads_big_endian_length() {
    let mut frame = vec![0u8, 0, 1, 2];
    frame.extend(std::iter::repeat(0u8).take(0x102));
    assert_eq!(thrift::Response { response: &frame }.parse(), ParsedResponse::Okay);
}

#[test]
fn owned_redis_test_parse_incomplete() {
    let r = redis_owned::Response { response: "+OK".to_string() };
    assert_eq!(r.parse(), ParsedResponse::Incomplete);

    let r = redis_owned::Response { response: "+OK\r".to_string() };
    assert_eq!(r.parse(), ParsedResponse::Incomplete);
}

#[test]
fn owned_redis_test_parse_invalid() {
    let r = redis_owned::Response { response: "?OK\r\n".to_string() };
    assert_eq!(r.parse(), ParsedResponse::Invalid);

    let r = redis_owned::Response { response: ":OK\r\n".to_string() };
    assert_eq!(r.parse(), ParsedResponse::Invalid);
}

#[test]
fn owned_redis_test_parse_ok() {
    let r = redis_owned::Response { response: "+OK\r\n".to_string() };
    assert_eq!(r.parse(), ParsedResponse::Okay);

    let r = redis_owned::Response { response: "$0\r\n\r\n".to_string() };
    assert_eq!(r.parse(), ParsedResponse::Hit);

    let r = redis_owned::Response { response: "$1\r\n1\r\n".to_string() };
    assert_eq!(r.parse(), ParsedResponse::Hit);

    let r = redis_owned::Response { response: ":12345\r\n".to_string() };
    assert_eq!(r.parse(), ParsedResponse::Okay);

    let r = redis_owned::Response { response: ":-12345\r\n".to_string() };
    assert_eq!(r.parse(), ParsedResponse::Okay);
}

#[test]
fn owned_redis_test_parse_error() {
    let r = redis_owned::Response { response: "-ERROR\r\n".to_string() };
    assert_eq!(r.parse(), ParsedResponse::Error("ERROR".to_string()));

    let r = redis_owned::Response { response: "-ERROR with message\r\n".to_string() };
    assert_eq!(r.parse(), ParsedResponse::Error("ERROR with message".to_string()));
}

#[test]
fn owned_redis_test_parse_miss() {
    let r = redis_owned::Response { response: "$-1\r\n".to_string() };
    assert_eq!(r.parse(), ParsedResponse::Miss);
}

#[test]
fn owned_redis_nil_array_is_unknown() {
    // arrays, a nil one included, are not classified by this parser
    let r = redis_owned::Response { response: "*-1\r\n".to_string() };
    assert_eq!(r.parse(), ParsedResponse::Unknown);
}
