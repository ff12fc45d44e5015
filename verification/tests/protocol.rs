//! The protocol edges: header limits, framing conflicts, malformed
//! heads, partial reads, and connection teardown.

use pasta6::connection::{
    ClientStep, Connection, ConnectionErrorKind, ResponseErrorKind, ServerStep,
};
use pasta6::framing::{BodyLength, FramingError};
use pasta6::header::HeaderName;
use pasta6::message::{serialize_response, too_many_headers_response};

const DATE: &[u8] = b"Fri, 14 Jan 2022 02:28:00 GMT";

#[test]
fn too_many_headers_yield_431() {
    // 101 headers against a limit of 100.
    let mut wire: Vec<u8> = b"GET / HTTP/1.1\r\n".to_vec();
    for i in 0..101 {
        wire.extend_from_slice(format!("h{}: v\r\n", i).as_bytes());
    }
    wire.extend_from_slice(b"\r\n");
    let mut server = Connection::new(100, 65536);
    match server.next_request(&wire) {
        ServerStep::ReplyTooManyHeaders => {}
        _ => panic!("expected the too-many-headers reply"),
    }
    let reply = serialize_response(&too_many_headers_response(), DATE);
    let expected: Vec<u8> =
        b"HTTP/1.1 431 Request Header Fields Too Large\r\ncontent-length: 0\r\ndate: Fri, 14 Jan 2022 02:28:00 GMT\r\n\r\n"
            .to_vec();
    assert_eq!(reply, expected);
}

#[test]
fn exactly_the_limit_is_accepted() {
    let mut wire: Vec<u8> = b"GET / HTTP/1.1\r\n".to_vec();
    for i in 0..100 {
        wire.extend_from_slice(format!("h{}: v\r\n", i).as_bytes());
    }
    wire.extend_from_slice(b"\r\n");
    let mut server = Connection::new(100, 65536);
    assert!(matches!(
        server.next_request(&wire),
        ServerStep::Request(_)
    ));
}

#[test]
fn conflicting_content_length_is_rejected() {
    // A response with two differing content-length values is invalid
    // framing, never resolved by picking one.
    let wire = b"HTTP/1.1 200 OK\r\ncontent-length: 5\r\ncontent-length: 6\r\n\r\n";
    let mut client = Connection::new(16, 1024);
    match client.next_response(wire) {
        ClientStep::Fail(e) => assert_eq!(e.kind(), ResponseErrorKind::InvalidMessageFraming),
        _ => panic!("expected invalid framing"),
    }
    // The same on the request side.
    let wire = b"POST / HTTP/1.1\r\ncontent-length: 5\r\ncontent-length: 6\r\n\r\n";
    let mut server = Connection::new(100, 1024);
    match server.next_request(wire) {
        ServerStep::Fail(e) => assert_eq!(
            e.kind(),
            ConnectionErrorKind::Framing(FramingError::InvalidMessageFraming)
        ),
        _ => panic!("expected invalid framing"),
    }
}

#[test]
fn duplicate_identical_content_length_is_accepted() {
    let wire = b"HTTP/1.1 200 OK\r\ncontent-length: 5\r\ncontent-length: 5\r\n\r\nhello";
    let mut client = Connection::new(16, 1024);
    match client.next_response(wire) {
        ClientStep::Response(resp) => {
            assert_eq!(resp.code(), 200);
            assert_eq!(resp.body.len(), BodyLength::Known(5));
            assert_eq!(client.body_bytes().unwrap(), b"hello");
        }
        _ => panic!("expected a response"),
    }
}

#[test]
fn transfer_encoding_is_surfaced_not_mishandled() {
    let wire = b"HTTP/1.1 200 OK\r\ntransfer-encoding: chunked\r\n\r\n";
    let mut client = Connection::new(16, 1024);
    match client.next_response(wire) {
        ClientStep::Fail(e) => {
            assert_eq!(e.kind(), ResponseErrorKind::UnsupportedTransferEncoding)
        }
        _ => panic!("expected the unsupported-framing error"),
    }
    // Next to a content-length it is invalid framing outright.
    let wire = b"HTTP/1.1 200 OK\r\ntransfer-encoding: chunked\r\ncontent-length: 5\r\n\r\n";
    let mut client = Connection::new(16, 1024);
    match client.next_response(wire) {
        ClientStep::Fail(e) => assert_eq!(e.kind(), ResponseErrorKind::InvalidMessageFraming),
        _ => panic!("expected invalid framing"),
    }
}

#[test]
fn bad_content_length_values_are_rejected() {
    let mut client = Connection::new(16, 1024);
    match client.next_response(b"HTTP/1.1 200 OK\r\ncontent-length: abc\r\n\r\n") {
        ClientStep::Fail(e) => assert_eq!(e.kind(), ResponseErrorKind::ParseInt),
        _ => panic!("expected a parse-int error"),
    }
    let mut server = Connection::new(100, 1024);
    match server.next_request(b"POST / HTTP/1.1\r\ncontent-length: 18446744073709551616\r\n\r\n") {
        ServerStep::Fail(e) => assert_eq!(
            e.kind(),
            ConnectionErrorKind::Framing(FramingError::InvalidContentLength)
        ),
        _ => panic!("expected a framing error"),
    }
}

#[test]
fn unknown_header_is_dropped_without_error() {
    let wire = b"GET / HTTP/1.1\r\nx-unknown: 1\r\ndate: D\r\n\r\n";
    let mut server = Connection::new(100, 1024);
    match server.next_request(wire) {
        ServerStep::Request(req) => {
            assert_eq!(req.headers().len(), 1);
            assert!(req.headers().get(HeaderName::ContentLength).is_none());
            assert_eq!(req.headers().get(HeaderName::Date).unwrap(), b"D");
        }
        _ => panic!("expected a request"),
    }
}

#[test]
fn partial_reads_parse_like_one_delivery() {
    // The request line in one read, the rest in the next.
    let mut split = Connection::new(100, 1024);
    assert!(matches!(
        split.next_request(b"GET / HTTP/1.1\r\n"),
        ServerStep::NeedMore
    ));
    let from_split = match split.next_request(b"date: D\r\n\r\n") {
        ServerStep::Request(req) => req,
        _ => panic!("expected a request"),
    };
    let mut whole = Connection::new(100, 1024);
    let from_whole = match whole.next_request(b"GET / HTTP/1.1\r\ndate: D\r\n\r\n") {
        ServerStep::Request(req) => req,
        _ => panic!("expected a request"),
    };
    assert_eq!(from_split.method(), from_whole.method());
    assert_eq!(from_split.path(), from_whole.path());
    assert_eq!(from_split.headers().len(), from_whole.headers().len());
    assert_eq!(
        from_split.headers().get(HeaderName::Date),
        from_whole.headers().get(HeaderName::Date)
    );
    assert_eq!(from_split.body().len(), from_whole.body().len());
    // Even split mid-token.
    let mut mid = Connection::new(100, 1024);
    assert!(matches!(mid.next_request(b"GET / HT"), ServerStep::NeedMore));
    assert!(matches!(
        mid.next_request(b"TP/1.1\r\n\r\n"),
        ServerStep::Request(_)
    ));
}

#[test]
fn malformed_heads_fail_the_connection() {
    for wire in [
        &b"PUT / HTTP/1.1\r\n\r\n"[..],     // unsupported method
        &b"GARBAGE\r\n\r\n"[..],            // no request line shape
        &b"GET / HTTP/1.0\r\n\r\n"[..],     // wrong version
        &b"GET  HTTP/1.1\r\n\r\n"[..],      // empty path
        &b"GET / HTTP/1.1\nbad\r\n\r\n"[..], // bare LF
        &b"GET / HTTP/1.1\r\nno-colon\r\n\r\n"[..],
    ] {
        let mut server = Connection::new(100, 1024);
        match server.next_request(wire) {
            ServerStep::Fail(e) => assert_eq!(e.kind(), ConnectionErrorKind::RequestError),
            _ => panic!("expected a request error"),
        }
    }
}

#[test]
fn oversized_heads_are_rejected_distinctly() {
    let mut server = Connection::new(100, 16);
    match server.next_request(b"GET /a/very/long/path/without/end HTTP/1.1") {
        ServerStep::Fail(e) => assert_eq!(e.kind(), ConnectionErrorKind::HeadTooLong),
        _ => panic!("expected head-too-long"),
    }
}

#[test]
fn eof_classification() {
    let server = Connection::new(100, 1024);
    assert!(server.eof_status().is_closed());
    assert_eq!(server.eof_status().kind(), ConnectionErrorKind::Closed);
    let mut server = Connection::new(100, 1024);
    assert!(matches!(server.next_request(b"GET / HT"), ServerStep::NeedMore));
    assert_eq!(
        server.eof_status().kind(),
        ConnectionErrorKind::UnexpectedEof
    );
}

#[test]
fn unknown_length_body_runs_until_close() {
    let mut client = Connection::new(16, 1024);
    match client.next_response(b"HTTP/1.1 200 OK\r\n\r\nabc") {
        ClientStep::Response(resp) => {
            assert_eq!(resp.body.len(), BodyLength::Unknown);
            assert!(client.body_bytes().is_none());
        }
        _ => panic!("expected a response"),
    }
    assert!(matches!(client.next_response(b"def"), ClientStep::NeedMore));
    client.on_eof();
    assert_eq!(client.body_bytes().unwrap(), b"abcdef");
}

#[test]
fn status_line_without_reason_is_accepted() {
    let mut client = Connection::new(16, 1024);
    match client.next_response(b"HTTP/1.1 204\r\ncontent-length: 0\r\n\r\n") {
        ClientStep::Response(resp) => assert_eq!(resp.code(), 204),
        _ => panic!("expected a response"),
    }
}
