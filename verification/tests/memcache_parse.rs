use rpcperf::protocol::memcache::parse_response;
use rpcperf::protocol::ParsedResponse;

#[test]
fn parse_test_parse_incomplete() {
    let r = "0";
    assert_eq!(parse_response(r), ParsedResponse::Incomplete);

    let r = "STOR";
    assert_eq!(parse_response(r), ParsedResponse::Incomplete);

    let r = "STORED";
    assert_eq!(parse_response(r), ParsedResponse::Incomplete);

    let r = "STORED\r";
    assert_eq!(parse_response(r), ParsedResponse::Incomplete);

    let r = "VERSION ";
    assert_eq!(parse_response(r), ParsedResponse::Incomplete);

    let r = "VERSION 1.2.3";
    assert_eq!(parse_response(r), ParsedResponse::Incomplete);

    let r = "VERSION 1.2.3\r";
    assert_eq!(parse_response(r), ParsedResponse::Incomplete);

    let r = "CLIENT_ERROR";
    assert_eq!(parse_response(r), ParsedResponse::Incomplete);

    let r = "SERVER_ERROR error msg";
    assert_eq!(parse_response(r), ParsedResponse::Incomplete);

    let r = "VALUE key 0 1 0\r\n";
    assert_eq!(parse_response(r), ParsedResponse::Incomplete);

    let r = "VALUE key 0 10\r\n0123456789\r\n";
    assert_eq!(parse_response(r), ParsedResponse::Incomplete);

    let r = "VALUE key 0 10\r\n0123456789\r\nEND\r";
    assert_eq!(parse_response(r), ParsedResponse::Incomplete);

    let r = "VALUE key 0 10\r\nEND\r\nEND\r\n\r\nEND";
    assert_eq!(parse_response(r), ParsedResponse::Incomplete);
}

#[test]
fn parse_test_parse_invalid() {
    let r = "VALUE key 0 10\r\n0123456789ABCDEF\r\nEND\r\n";
    assert_eq!(parse_response(r), ParsedResponse::Invalid);

    let r = "VALUE key 0 NaN\r\n0123456789ABCDEF\r\nEND\r\n";
    assert_eq!(parse_response(r), ParsedResponse::Invalid);

    let r = "VALUE key NaN 10\r\n0123456789\r\nEND\r\n";
    assert_eq!(parse_response(r), ParsedResponse::Invalid);
}

#[test]
fn parse_test_parse_ok() {
    let r = "OK\r\n";
    assert_eq!(parse_response(r), ParsedResponse::Okay);

    let r = "STORED\r\n";
    assert_eq!(parse_response(r), ParsedResponse::Okay);

    let r = "DELETED\r\n";
    assert_eq!(parse_response(r), ParsedResponse::Okay);

    let r = "VALUE key 0 10\r\n0123456789\r\nEND\r\n";
    assert_eq!(parse_response(r), ParsedResponse::Hit);

    let r = "VALUE key 0 10\r\n0123456789\r\nEND\r\n";
    assert_eq!(parse_response(r), ParsedResponse::Hit);

    let r = "12345\r\n";
    assert_eq!(parse_response(r), ParsedResponse::Okay);
}

#[test]
fn parse_test_parse_error() {
    let r = "ERROR\r\n";
    assert_eq!(parse_response(r), ParsedResponse::Error("ERROR\r\n".to_owned()));

    let r = "CLIENT_ERROR some message\r\n";
    assert_eq!(
        parse_response(r),
        ParsedResponse::Error("CLIENT_ERROR some message\r\n".to_owned())
    );

    let r = "SERVER_ERROR some message\r\n";
    assert_eq!(
        parse_response(r),
        ParsedResponse::Error("SERVER_ERROR some message\r\n".to_owned())
    );
}

#[test]
fn parse_test_parse_miss() {
    let r = "EXISTS\r\n";
    assert_eq!(parse_response(r), ParsedResponse::Miss);

    let r = "NOT_FOUND\r\n";
    assert_eq!(parse_response(r), ParsedResponse::Miss);

    let r = "NOT_STORED\r\n";
    assert_eq!(parse_response(r), ParsedResponse::Miss);
}

#[test]
fn test_parse_version() {
    let r = "VERSION 1.2.3\r\n";
    assert_eq!(parse_response(r), ParsedResponse::Version("1.2.3".to_owned()));
}

#[test]
fn memcache_version_words_are_joined_with_single_spaces() {
    let r = "VERSION  1.2.3 \t beta\r\n";
    assert_eq!(parse_response(r), ParsedResponse::Version("1.2.3 beta".to_owned()));
    // a non-breaking space separates words as well
    let r = "VERSION 1.2\u{a0}x\r\n";
    assert_eq!(parse_response(r), ParsedResponse::Version("1.2 x".to_owned()));
}

#[test]
fn memcache_edge_cases() {
    assert_eq!(parse_response("END\r\n"), ParsedResponse::Miss);
    assert_eq!(parse_response("VALUE\r\n"), ParsedResponse::Incomplete);
    assert_eq!(parse_response("+12\r\n"), ParsedResponse::Okay);
    assert_eq!(parse_response("18446744073709551616\r\n"), ParsedResponse::Unknown);
    assert_eq!(parse_response("HELLO\r\n"), ParsedResponse::Unknown);
    assert_eq!(parse_response("HELLO THERE\r\n"), ParsedResponse::Unknown);
    assert_eq!(parse_response("OTHER\r\nEND\r\n"), ParsedResponse::Unknown);
    assert_eq!(parse_response("VALUE k 0\r\nEND\r\n"), ParsedResponse::Incomplete);
    assert_eq!(parse_response("VALUE k 0 0\r\nEND\r\n"), ParsedResponse::Hit);
    assert_eq!(parse_response("VALUE k 0 3 x\r\nabc\r\nEND\r\n"), ParsedResponse::Invalid);
    assert_eq!(parse_response("VALUE k 0 3 7\r\nabc\r\nEND\r\n"), ParsedResponse::Hit);
    assert_eq!(parse_response("VALUE k 0 4\r\na\r\nb\r\nEND\r\n"), ParsedResponse::Hit);
    assert_eq!(parse_response("VALUE k 0 4\r\nab\r\nc\r\nEND\r\n"), ParsedResponse::Invalid);
    assert_eq!(parse_response("VALUE k 0 9\r\nabc\r\nEND\r\n"), ParsedResponse::Incomplete);
    assert_eq!(parse_response("VALUE k 0 3\r\nabc\r\nNOPE\r\n"), ParsedResponse::Incomplete);
}
