//! Unit tests for the byte utilities, the parser and the builder.
use http_server::ascii;
use http_server::headers::hdr_get;
use http_server::http::{HttpResponseBuilder, HttpStatus};
use http_server::request::{parse_request, HttpError};

#[test]
fn decimal_rendering() {
    assert_eq!(ascii::dec(0), b"0".to_vec());
    assert_eq!(ascii::dec(5), b"5".to_vec());
    assert_eq!(ascii::dec(10), b"10".to_vec());
    assert_eq!(ascii::dec(255), b"255".to_vec());
    assert_eq!(ascii::dec(120345), b"120345".to_vec());
}

#[test]
fn trimming() {
    assert_eq!(ascii::trim(b"  a b\t"), b"a b".to_vec());
    assert_eq!(ascii::trim(b"gzip"), b"gzip".to_vec());
    assert_eq!(ascii::trim(b" \t "), Vec::<u8>::new());
    assert_eq!(ascii::trim(b""), Vec::<u8>::new());
}

#[test]
fn finding_and_prefixes() {
    assert_eq!(ascii::find(b"a\r\nb", b"\r\n"), Some(1));
    assert_eq!(ascii::find(b"abc", b"\r\n"), None);
    assert_eq!(ascii::find(b"aab", b"ab"), Some(1));
    assert!(ascii::starts_with(b"/echo/hi", b"/echo/"));
    assert!(!ascii::starts_with(b"/echo", b"/echo/"));
    assert!(ascii::bytes_eq(b"abc", b"abc"));
    assert!(!ascii::bytes_eq(b"abc", b"abd"));
}

#[test]
fn splitting() {
    let parts = ascii::split(b"a,b,,c", b",");
    assert_eq!(parts, vec![b"a".to_vec(), b"b".to_vec(), Vec::new(), b"c".to_vec()]);
    let parts = ascii::split(b"plain", b",");
    assert_eq!(parts, vec![b"plain".to_vec()]);
    let words = ascii::split_ws(b"GET /path HTTP/1.1");
    assert_eq!(
        words,
        vec![b"GET".to_vec(), b"/path".to_vec(), b"HTTP/1.1".to_vec()]
    );
    assert_eq!(ascii::split_ws(b"  "), Vec::<Vec<u8>>::new());
}

#[test]
fn parse_well_formed_request() {
    let req = parse_request(
        b"POST /files/x HTTP/1.1\r\nHost: localhost:4221\r\nContent-Type: text/plain\r\n\r\nbody",
    )
    .unwrap();
    assert_eq!(req.method, b"POST".to_vec());
    assert_eq!(req.path, b"/files/x".to_vec());
    assert_eq!(req.body, b"body".to_vec());
    assert_eq!(
        hdr_get(&req.headers, b"Host"),
        Some(b"localhost:4221".to_vec())
    );
    assert_eq!(
        hdr_get(&req.headers, b"Content-Type"),
        Some(b"text/plain".to_vec())
    );
    assert_eq!(hdr_get(&req.headers, b"Absent"), None);
}

#[test]
fn parse_strips_trailing_nulls() {
    let mut raw = b"GET / HTTP/1.1\r\nHost: x\r\n\r\nab".to_vec();
    raw.extend_from_slice(&[0, 0, 0]);
    let req = parse_request(&raw).unwrap();
    assert_eq!(req.body, b"ab".to_vec());
}

#[test]
fn parse_duplicate_header_last_wins() {
    let req = parse_request(b"GET / HTTP/1.1\r\nA: 1\r\nA: 2\r\n\r\n").unwrap();
    assert_eq!(hdr_get(&req.headers, b"A"), Some(b"2".to_vec()));
    assert_eq!(req.headers.len(), 1);
}

#[test]
fn parse_rejects_malformed_input() {
    assert_eq!(
        parse_request(b"GET / HTTP/1.1\r\nHost: x").unwrap_err(),
        HttpError::MalformedRequest
    );
    assert_eq!(
        parse_request(b"GET / HTTP/1.1\r\nNoColonHere\r\n\r\n").unwrap_err(),
        HttpError::MalformedRequest
    );
    assert!(matches!(parse_request(b"\r\n\r\n"), Err(HttpError::MalformedRequest)));
    assert!(matches!(parse_request(b"GET\r\n\r\n"), Err(HttpError::MalformedRequest)));
}

#[test]
fn status_texts() {
    assert_eq!(HttpStatus::Okay.status_text(), "200 OK");
    assert_eq!(HttpStatus::NotFound.status_text(), "404 Not Found");
    assert_eq!(HttpStatus::NotImplemented.status_text(), "501 Not Implemented");
    assert_eq!(HttpStatus::Created.status_text(), "201 Created");
    assert_eq!(
        HttpStatus::InternalServerError.status_text(),
        "500 Internal Server Error"
    );
}

#[test]
fn empty_builder_serializes_to_bare_ok() {
    let mut b = HttpResponseBuilder::new();
    let resp = b.build();
    assert_eq!(resp, b"HTTP/1.1 200 OK\r\n\r\n".to_vec());
}

#[test]
fn header_lines_keep_insertion_order_and_overwrite_in_place() {
    let mut b = HttpResponseBuilder::new();
    b.add_header("A", "1");
    b.add_header("B", "2");
    assert_eq!(b.res_headers(), b"A: 1\r\nB: 2\r\n".to_vec());
    b.add_header("A", "3");
    assert_eq!(b.res_headers(), b"A: 3\r\nB: 2\r\n".to_vec());
}

#[test]
fn body_headers_record_type_and_length() {
    let mut b = HttpResponseBuilder::new();
    b.add_body_with_req_headers("hello", "text/plain");
    assert_eq!(
        b.res_headers(),
        b"Content-Type: text/plain\r\nContent-Length: 5\r\n".to_vec()
    );
    let resp = b.build();
    assert!(resp.ends_with(b"\r\n\r\nhello"));
}

#[test]
fn compression_negotiation() {
    let mut b = HttpResponseBuilder::new();
    b.enable_compression("identity");
    assert_eq!(b.res_headers(), Vec::<u8>::new());

    let mut b = HttpResponseBuilder::new();
    b.enable_compression("identity, gzip");
    assert_eq!(b.res_headers(), b"Content-Encoding: gzip\r\n".to_vec());

    let mut b = HttpResponseBuilder::new();
    b.enable_compression("  gzip  ");
    assert_eq!(b.res_headers(), b"Content-Encoding: gzip\r\n".to_vec());

    let mut b = HttpResponseBuilder::new();
    b.enable_compression("");
    assert_eq!(b.res_headers(), Vec::<u8>::new());
}

#[test]
fn compressed_body_differs_from_input_and_length_is_recomputed() {
    let mut b = HttpResponseBuilder::new();
    b.enable_compression("gzip");
    b.add_body_with_req_headers("hello", "text/plain");
    assert_eq!(
        hdr_get(&b.headers, b"Content-Length"),
        Some(b"5".to_vec())
    );
    let resp = b.build();
    let pos = resp
        .windows(4)
        .position(|w| w == b"\r\n\r\n")
        .expect("header end");
    let body = &resp[pos + 4..];
    assert_ne!(body, b"hello");
    let recorded = hdr_get(&b.headers, b"Content-Length").unwrap();
    let recorded: usize = String::from_utf8(recorded).unwrap().parse().unwrap();
    assert_eq!(recorded, body.len());
}
