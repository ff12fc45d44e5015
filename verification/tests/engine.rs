//! End-to-end exercises of the engine: a request fed to a server-side
//! connection, a handler's response written back, and the bytes read by
//! a client-side connection.

use pasta6::connection::{ClientStep, Connection, ServerStep};
use pasta6::framing::BodyLength;
use pasta6::header::{HeaderName, Headers};
use pasta6::message::{serialize_response, Method, Response};

const DATE: &[u8] = b"Fri, 14 Jan 2022 02:28:00 GMT";

fn hello_world_response() -> Response {
    Response::from_static(200, b"hello, world!")
}

/// Drives one request through a server connection and returns the bytes
/// the server writes back.
fn serve_once(conn: &mut Connection, request_bytes: &[u8]) -> Vec<u8> {
    match conn.next_request(request_bytes) {
        ServerStep::Request(req) => {
            assert_eq!(req.method(), Method::Get);
            assert_eq!(req.path().as_slice(), b"/");
            assert_eq!(conn.body_bytes().unwrap(), b"");
            let resp = hello_world_response();
            assert!(!resp.has_forbidden_headers());
            let out = serialize_response(&resp, DATE);
            assert!(conn.body_complete());
            conn.finish_message();
            out
        }
        step => panic!(
            "expected a request, got {}",
            match step {
                ServerStep::NeedMore => "NeedMore",
                ServerStep::ReplyTooManyHeaders => "ReplyTooManyHeaders",
                ServerStep::Fail(_) => "Fail",
                ServerStep::Request(_) => unreachable!(),
            }
        ),
    }
}

#[test]
fn test() {
    // Server side: a bare GET yields the hello-world response.
    let mut server = Connection::new(100, 1024);
    let wire = serve_once(&mut server, b"GET / HTTP/1.1\r\n\r\n");
    let expected: Vec<u8> =
        b"HTTP/1.1 200 OK\r\ncontent-length: 13\r\ndate: Fri, 14 Jan 2022 02:28:00 GMT\r\n\r\nhello, world!"
            .to_vec();
    assert_eq!(wire, expected);
    assert_eq!(wire.len(), 89);

    // Client side: the same bytes parse back into the response.
    let mut client = Connection::new(16, 1024);
    match client.next_response(&wire) {
        ClientStep::Response(resp) => {
            assert_eq!(resp.code(), 200);
            assert_eq!(resp.reason(), "OK");
            assert_eq!(resp.headers().len(), 2);
            assert_eq!(
                resp.headers().get(HeaderName::ContentLength).unwrap(),
                b"13"
            );
            assert_eq!(resp.headers().get(HeaderName::Date).unwrap(), DATE);
            assert!(matches!(resp.body.kind, pasta6::message::BodyKind::Conn { .. }));
            assert_eq!(client.body_bytes().unwrap(), b"hello, world!");
        }
        _ => panic!("expected a response"),
    }
}

#[test]
fn test_hello_world() {
    // Headers outside the allow-list are dropped, and the exchange still
    // round-trips.
    let mut server = Connection::new(100, 1024);
    let wire = serve_once(
        &mut server,
        b"GET / HTTP/1.1\r\nUser-Agent: curl/7.76.1\r\nAccept: */*\r\n\r\n",
    );
    let mut client = Connection::new(16, 1024);
    match client.next_response(&wire) {
        ClientStep::Response(resp) => {
            assert_eq!(resp.code(), 200);
            assert_eq!(resp.reason(), "OK");
            assert_eq!(resp.headers().len(), 2);
            assert_eq!(
                resp.headers().get(HeaderName::ContentLength).unwrap(),
                b"13"
            );
            assert_eq!(resp.headers().get(HeaderName::Date).unwrap(), DATE);
            assert_eq!(client.body_bytes().unwrap(), b"hello, world!");
        }
        _ => panic!("expected a response"),
    }
}

#[test]
fn test_multiple_requests() {
    // Two sequential requests over one connection yield two independent
    // 200 responses, in order.
    let mut server = Connection::new(100, 1024);
    let first = serve_once(&mut server, b"GET / HTTP/1.1\r\n\r\n");
    let second = serve_once(&mut server, b"GET / HTTP/1.1\r\n\r\n");
    assert_eq!(first, second);

    let mut client = Connection::new(16, 1024);
    for wire in [first, second] {
        match client.next_response(&wire) {
            ClientStep::Response(resp) => {
                assert_eq!(resp.code(), 200);
                assert_eq!(client.body_bytes().unwrap(), b"hello, world!");
                assert!(client.body_complete());
                client.finish_message();
            }
            _ => panic!("expected a response"),
        }
    }
}

#[test]
fn pipelined_requests_are_kept_for_the_next_parse() {
    // Both requests arrive in one read: the second is parsed out of the
    // leftover bytes after the first is finished.
    let mut server = Connection::new(100, 1024);
    let both = b"GET / HTTP/1.1\r\n\r\nGET / HTTP/1.1\r\n\r\n";
    let first = serve_once(&mut server, both);
    let second = serve_once(&mut server, b"");
    assert_eq!(first, second);
}

#[test]
fn app_test_get() {
    // The client writes the request head; the server parses it and
    // answers.
    let head = pasta6::message::build_request_head(Method::Get, b"/");
    assert_eq!(head, b"GET / HTTP/1.1\r\n\r\n");
    let mut server = Connection::new(100, 1024);
    let wire = serve_once(&mut server, &head);
    let mut client = Connection::new(16, 1024);
    match client.next_response(&wire) {
        ClientStep::Response(resp) => {
            assert_eq!(resp.code(), 200);
            assert_eq!(resp.reason(), "OK");
            assert_eq!(resp.headers().len(), 2);
        }
        _ => panic!("expected a response"),
    }
}

#[test]
fn post_with_body_and_keep_alive() {
    let mut server = Connection::new(100, 1024);
    match server.next_request(b"POST /p HTTP/1.1\r\ncontent-length: 5\r\n\r\nhello") {
        ServerStep::Request(req) => {
            assert_eq!(req.method(), Method::Post);
            assert_eq!(req.path().as_slice(), b"/p");
            assert_eq!(req.body().len(), BodyLength::Known(5));
            assert!(server.body_complete());
            assert_eq!(server.body_bytes().unwrap(), b"hello");
            server.finish_message();
        }
        _ => panic!("expected a request"),
    }
    // The connection is clean for the next request.
    match server.next_request(b"GET / HTTP/1.1\r\n\r\n") {
        ServerStep::Request(req) => assert_eq!(req.method(), Method::Get),
        _ => panic!("expected a request"),
    }
}

#[test]
fn body_arriving_late_is_waited_for() {
    let mut server = Connection::new(100, 1024);
    match server.next_request(b"POST /p HTTP/1.1\r\ncontent-length: 6\r\n\r\nhal") {
        ServerStep::Request(req) => {
            assert_eq!(req.body().len(), BodyLength::Known(6));
            assert!(!server.body_complete());
            assert!(server.body_bytes().is_none());
        }
        _ => panic!("expected a request"),
    }
    assert!(matches!(server.next_request(b"lo!"), ServerStep::NeedMore));
    assert!(server.body_complete());
    assert_eq!(server.body_bytes().unwrap(), b"hallo!");
}

#[test]
fn serializer_writes_the_fixed_table() {
    let resp = Response::from_static(404, b"");
    let wire = serialize_response(&resp, b"D");
    assert_eq!(
        wire,
        b"HTTP/1.1 404 Not Found\r\ncontent-length: 0\r\ndate: D\r\n\r\n"
    );
    let head = pasta6::message::build_request_head(Method::Post, b"/x");
    assert_eq!(head, b"POST /x HTTP/1.1\r\n\r\n");
}

#[test]
fn forbidden_headers_are_detected() {
    let raw = vec![pasta6::header::RawHeader {
        name: b"content-length".to_vec(),
        value: b"3".to_vec(),
    }];
    let resp = Response::new(
        200,
        Headers::from_raw(&raw),
        pasta6::message::Body::from_vec(b"abc".to_vec()),
    );
    assert!(resp.has_forbidden_headers());
    assert!(!hello_world_response().has_forbidden_headers());
}
