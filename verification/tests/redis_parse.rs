use rpcperf::protocol::redis::{parse_response, Response};
use rpcperf::protocol::{Parse, ParsedResponse};

#[test]
fn redis_test_parse_incomplete() {
    let r = Response { response: "+OK" };
    assert_eq!(r.parse(), ParsedResponse::Incomplete);

    let r = Response { response: "+OK\r" };
    assert_eq!(r.parse(), ParsedResponse::Incomplete);
}

#[test]
fn redis_test_parse_invalid() {
    let r = Response { response: "?OK\r\n" };
    assert_eq!(r.parse(), ParsedResponse::Invalid);

    let r = Response { response: ":OK\r\n" };
    assert_eq!(r.parse(), ParsedResponse::Invalid);
}

#[test]
fn redis_test_parse_ok() {
    let r = Response { response: "+OK\r\n" };
    assert_eq!(r.parse(), ParsedResponse::Okay);

    let r = Response { response: "$0\r\n\r\n" };
    assert_eq!(r.parse(), ParsedResponse::Hit);

    let r = Response { response: "$1\r\n1\r\n" };
    assert_eq!(r.parse(), ParsedResponse::Hit);

    let r = Response { response: ":12345\r\n" };
    assert_eq!(r.parse(), ParsedResponse::Okay);

    let r = Response { response: ":-12345\r\n" };
    assert_eq!(r.parse(), ParsedResponse::Okay);
}

#[test]
fn redis_test_parse_error() {
    let r = Response { response: "-ERROR\r\n" };
    assert_eq!(r.parse(), ParsedResponse::Error("ERROR".to_string()));

    let r = Response { response: "-ERROR with message\r\n" };
    assert_eq!(r.parse(), ParsedResponse::Error("ERROR with message".to_string()));
}

#[test]
fn redis_test_parse_miss() {
    let r = Response { response: "$-1\r\n" };
    assert_eq!(r.parse(), ParsedResponse::Miss);

    let r = Response { response: "*-1\r\n" };
    assert_eq!(r.parse(), ParsedResponse::Miss);
}

#[test]
fn redis_fn_test_parse_incomplete() {
    let r = "+OK";
    assert_eq!(parse_response(r), ParsedResponse::Incomplete);

    let r = "+OK\r";
    assert_eq!(parse_response(r), ParsedResponse::Incomplete);
}

#[test]
fn redis_fn_test_parse_invalid() {
    let r = "?OK\r\n";
    assert_eq!(parse_response(r), ParsedResponse::Invalid);

    let r = ":OK\r\n";
    assert_eq!(parse_response(r), ParsedResponse::Invalid);
}

#[test]
fn redis_fn_test_parse_ok() {
    let r = "+OK\r\n";
    assert_eq!(parse_response(r), ParsedResponse::Okay);

    let r = "$0\r\n\r\n";
    assert_eq!(parse_response(r), ParsedResponse::Hit);

    let r = "$1\r\n1\r\n";
    assert_eq!(parse_response(r), ParsedResponse::Hit);

    let r = ":12345\r\n";
    assert_eq!(parse_response(r), ParsedResponse::Okay);

    let r = ":-12345\r\n";
    assert_eq!(parse_response(r), ParsedResponse::Okay);
}

#[test]
fn redis_fn_test_parse_error() {
    let r = "-ERROR\r\n";
    assert_eq!(parse_response(r), ParsedResponse::Error("ERROR".to_string()));

    let r = "-ERROR with message\r\n";
    assert_eq!(parse_response(r), ParsedResponse::Error("ERROR with message".to_string()));
}

#[test]
fn redis_fn_test_parse_miss() {
    let r = "$-1\r\n";
    assert_eq!(parse_response(r), ParsedResponse::Miss);

    let r = "*-1\r\n";
    assert_eq!(parse_response(r), ParsedResponse::Miss);
}

#[test]
fn redis_edge_cases() {
    assert_eq!(parse_response("+PONG\r\n"), ParsedResponse::Okay);
    assert_eq!(parse_response("+QUEUED\r\n"), ParsedResponse::Invalid);
    assert_eq!(parse_response("*2\r\n"), ParsedResponse::Unknown);
    assert_eq!(parse_response("$5\r\nab\r\n"), ParsedResponse::Incomplete);
    assert_eq!(parse_response("$1\r\nab\r\n"), ParsedResponse::Invalid);
    assert_eq!(parse_response("$4\r\na\r\nb\r\n"), ParsedResponse::Hit);
    assert_eq!(parse_response("$x\r\n"), ParsedResponse::Invalid);
    assert_eq!(parse_response(":9223372036854775807\r\n"), ParsedResponse::Okay);
    assert_eq!(parse_response(":9223372036854775808\r\n"), ParsedResponse::Invalid);
    assert_eq!(parse_response(":-9223372036854775808\r\n"), ParsedResponse::Okay);
    assert_eq!(parse_response(":-\r\n"), ParsedResponse::Invalid);
}
