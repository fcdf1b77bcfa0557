//! End-to-end scenarios: raw request bytes through parsing, routing, file
//! outcome, response building and serialization.
use std::collections::HashMap;
use std::io::Read;

use http_server::http::{build_is_repeatable, HttpResponseBuilder};
use http_server::request::parse_request;
use http_server::router::{file_op, respond, FileOp, FileOutcome};

/// Runs one request against an in-memory store standing in for the
/// storage directory, returning the serialized response.
fn run(raw: &[u8], store: &mut HashMap<Vec<u8>, Vec<u8>>) -> Vec<u8> {
    let req = parse_request(raw).expect("well-formed request");
    let outcome = match file_op(&req) {
        None => FileOutcome::NoFile,
        Some(FileOp::Read(name)) => match store.get(&name) {
            Some(contents) => FileOutcome::ReadOk(contents.clone()),
            None => FileOutcome::ReadMissing,
        },
        Some(FileOp::Write(name, contents)) => {
            store.insert(name, contents);
            FileOutcome::WriteDone
        }
    };
    let mut b = respond(&req, outcome);
    b.build()
}

fn status_line(resp: &[u8]) -> &[u8] {
    let pos = resp.windows(2).position(|w| w == b"\r\n").expect("status line");
    &resp[..pos]
}

fn body_of(resp: &[u8]) -> &[u8] {
    let pos = resp.windows(4).position(|w| w == b"\r\n\r\n").expect("header end");
    &resp[pos + 4..]
}

fn header_of(resp: &[u8], name: &str) -> Option<Vec<u8>> {
    let end = resp.windows(4).position(|w| w == b"\r\n\r\n").expect("header end");
    let head = &resp[..end];
    for line in head.split(|&b| b == b'\n') {
        let line = if line.ends_with(b"\r") { &line[..line.len() - 1] } else { line };
        if let Some(colon) = line.iter().position(|&b| b == b':') {
            if &line[..colon] == name.as_bytes() {
                return Some(line[colon + 2..].to_vec());
            }
        }
    }
    None
}

fn gunzip(data: &[u8]) -> Vec<u8> {
    let mut dec = flate2::read::GzDecoder::new(data);
    let mut out = Vec::new();
    dec.read_to_end(&mut out).expect("valid gzip stream");
    out
}

#[test]
fn echo_without_accept_encoding() {
    let mut store = HashMap::new();
    let resp = run(b"GET /echo/hello HTTP/1.1\r\nHost: localhost\r\n\r\n", &mut store);
    assert_eq!(status_line(&resp), b"HTTP/1.1 200 OK");
    assert_eq!(body_of(&resp), b"hello");
    assert_eq!(header_of(&resp, "Content-Type"), Some(b"text/plain".to_vec()));
    assert_eq!(header_of(&resp, "Content-Length"), Some(b"5".to_vec()));
    assert_eq!(header_of(&resp, "Content-Encoding"), None);
}

#[test]
fn echo_with_gzip_negotiated() {
    let mut store = HashMap::new();
    let resp = run(
        b"GET /echo/hello HTTP/1.1\r\nAccept-Encoding: identity, gzip\r\n\r\n",
        &mut store,
    );
    assert_eq!(status_line(&resp), b"HTTP/1.1 200 OK");
    assert_eq!(header_of(&resp, "Content-Encoding"), Some(b"gzip".to_vec()));
    let body = body_of(&resp);
    assert_eq!(gunzip(body), b"hello".to_vec());
    let len: usize = String::from_utf8(header_of(&resp, "Content-Length").unwrap())
        .unwrap()
        .parse()
        .unwrap();
    assert_eq!(len, body.len());
}

#[test]
fn user_agent_is_reflected() {
    let mut store = HashMap::new();
    let resp = run(
        b"GET /user-agent HTTP/1.1\r\nUser-Agent: test-client/1.0\r\n\r\n",
        &mut store,
    );
    assert_eq!(status_line(&resp), b"HTTP/1.1 200 OK");
    assert_eq!(body_of(&resp), b"test-client/1.0");
    assert_eq!(header_of(&resp, "Content-Type"), Some(b"text/plain".to_vec()));
}

#[test]
fn file_write_then_read_back() {
    let mut store = HashMap::new();
    let resp = run(
        b"POST /files/foo.txt HTTP/1.1\r\nContent-Type: application/octet-stream\r\n\r\nabc123",
        &mut store,
    );
    assert_eq!(status_line(&resp), b"HTTP/1.1 201 Created");
    let resp = run(b"GET /files/foo.txt HTTP/1.1\r\nHost: x\r\n\r\n", &mut store);
    assert_eq!(status_line(&resp), b"HTTP/1.1 200 OK");
    assert_eq!(body_of(&resp), b"abc123");
    assert_eq!(
        header_of(&resp, "Content-Type"),
        Some(b"application/octet-stream".to_vec())
    );
}

#[test]
fn missing_file_is_not_found() {
    let mut store = HashMap::new();
    let resp = run(b"GET /files/missing.txt HTTP/1.1\r\nHost: x\r\n\r\n", &mut store);
    assert_eq!(status_line(&resp), b"HTTP/1.1 404 Not Found");
    assert_eq!(body_of(&resp), b"");
}

#[test]
fn file_write_with_wrong_media_type_fails() {
    let mut store = HashMap::new();
    let resp = run(
        b"POST /files/foo.txt HTTP/1.1\r\nContent-Type: text/plain\r\n\r\nabc123",
        &mut store,
    );
    assert_eq!(status_line(&resp), b"HTTP/1.1 500 Internal Server Error");
    assert!(store.is_empty());
}

#[test]
fn routing_table_statuses() {
    let cases: Vec<(&[u8], &[u8])> = vec![
        (b"GET / HTTP/1.1\r\nHost: x\r\n\r\n".as_slice(), b"HTTP/1.1 200 OK".as_slice()),
        (b"GET /user-agent HTTP/1.1\r\nUser-Agent: a\r\n\r\n", b"HTTP/1.1 200 OK"),
        (b"GET /echo/abc HTTP/1.1\r\nHost: x\r\n\r\n", b"HTTP/1.1 200 OK"),
        (b"GET /files/nope HTTP/1.1\r\nHost: x\r\n\r\n", b"HTTP/1.1 404 Not Found"),
        (b"GET /unknown HTTP/1.1\r\nHost: x\r\n\r\n", b"HTTP/1.1 404 Not Found"),
        (
            b"POST /files/a HTTP/1.1\r\nContent-Type: application/octet-stream\r\n\r\nx",
            b"HTTP/1.1 201 Created",
        ),
        (
            b"POST /files/a HTTP/1.1\r\nContent-Type: text/plain\r\n\r\nx",
            b"HTTP/1.1 500 Internal Server Error",
        ),
        (b"POST /unknown HTTP/1.1\r\nHost: x\r\n\r\n", b"HTTP/1.1 404 Not Found"),
        (b"DELETE / HTTP/1.1\r\nHost: x\r\n\r\n", b"HTTP/1.1 501 Not Implemented"),
    ];
    for (raw, expected) in cases {
        let mut store = HashMap::new();
        let resp = run(raw, &mut store);
        assert_eq!(status_line(&resp), expected);
    }
}

#[test]
fn build_twice_gives_identical_bytes() {
    let req = parse_request(
        b"GET /echo/hello HTTP/1.1\r\nAccept-Encoding: gzip\r\n\r\n",
    )
    .unwrap();
    let mut b = respond(&req, FileOutcome::NoFile);
    let (first, second) = build_is_repeatable(&mut b);
    assert_eq!(first, second);
    let third = b.build();
    assert_eq!(second, third);
}

#[test]
fn build_twice_without_compression_gives_identical_bytes() {
    let mut b = HttpResponseBuilder::new();
    b.add_body_with_req_headers("stable", "text/plain");
    let first = b.build();
    let second = b.build();
    assert_eq!(first, second);
}

#[test]
fn gzip_round_trip_restores_any_body() {
    let bodies: Vec<Vec<u8>> = vec![
        Vec::new(),
        b"hello".to_vec(),
        b"a longer body with some repetition repetition repetition".to_vec(),
        (0u8..=255).collect::<Vec<u8>>(),
    ];
    for body in bodies {
        let mut b = HttpResponseBuilder::new();
        b.enable_compression("gzip");
        let text: Vec<u8> = body.clone();
        b.add_body_bytes(text, b"application/octet-stream".to_vec());
        let resp = b.build();
        assert_eq!(gunzip(body_of(&resp)), body);
    }
}
