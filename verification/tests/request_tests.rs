use kpenter::request::Request;

fn b(s: &str) -> Vec<u8> {
    s.as_bytes().to_vec()
}

#[test]
fn parse_simple_get() {
    let raw = b("GET /index.html HTTP/1.1\r\nHost: localhost\r\n\r\n");
    let req = Request::new(&raw).unwrap();
    assert_eq!(req.method, b("get"));
    assert_eq!(req.req_path, b("/index.html"));
    assert_eq!(req.http_ver, b("HTTP/1.1"));
    assert_eq!(req.header.len(), 1);
    assert_eq!(req.header[0].key, b("Host"));
    assert_eq!(req.header[0].value, b("localhost"));
    assert_eq!(req.content, b(""));
}

#[test]
fn parse_post_with_body() {
    let raw = b("POST /submit HTTP/1.0\r\nContent-Length: 5\r\n\r\nhello");
    let req = Request::new(&raw).unwrap();
    assert_eq!(req.method, b("post"));
    assert_eq!(req.req_path, b("/submit"));
    assert_eq!(req.content, b("hello"));
}

#[test]
fn parse_method_case_insensitive() {
    let raw = b("gEt / HTTP/1.1\r\n\r\n");
    let req = Request::new(&raw).unwrap();
    assert_eq!(req.method, b("get"));
}

#[test]
fn parse_rejects_two_tokens() {
    let raw = b("GET /index.html\r\n\r\n");
    let err = Request::new(&raw).unwrap_err();
    assert_eq!(err.0, 400);
    assert_eq!(err.1, "Bad Request");
}

#[test]
fn parse_rejects_four_tokens() {
    let raw = b("GET / HTTP/1.1 extra\r\n\r\n");
    assert!(Request::new(&raw).is_err());
}

#[test]
fn parse_rejects_unsupported_method() {
    let raw = b("PUT /thing HTTP/1.1\r\n\r\n");
    let err = Request::new(&raw).unwrap_err();
    assert_eq!(err.0, 400);
}

#[test]
fn parse_rejects_empty_buffer() {
    let raw: Vec<u8> = vec![];
    assert!(Request::new(&raw).is_err());
}

#[test]
fn parse_header_value_trimmed() {
    let raw = b("GET / HTTP/1.1\r\nAccept:   text/plain  \r\n\r\n");
    let req = Request::new(&raw).unwrap();
    assert_eq!(req.header[0].key, b("Accept"));
    assert_eq!(req.header[0].value, b("text/plain"));
}

#[test]
fn parse_header_value_keeps_inner_colons() {
    let raw = b("GET / HTTP/1.1\r\nHost: localhost:8080\r\n\r\n");
    let req = Request::new(&raw).unwrap();
    assert_eq!(req.header[0].value, b("localhost:8080"));
}

#[test]
fn parse_header_line_without_colon() {
    let raw = b("GET / HTTP/1.1\r\nnocolonhere\r\n\r\n");
    let req = Request::new(&raw).unwrap();
    assert_eq!(req.header[0].key, b(""));
    assert_eq!(req.header[0].value, b("nocolonhere"));
}

#[test]
fn parse_stops_headers_at_blank_line() {
    let raw = b("GET / HTTP/1.1\r\nA: 1\r\nB: 2\r\n\r\nbody-line\r\n");
    let req = Request::new(&raw).unwrap();
    assert_eq!(req.header.len(), 2);
    assert_eq!(req.content, b("body-line"));
}

#[test]
fn get_header_case_insensitive() {
    let raw = b("GET / HTTP/1.1\r\nContent-Type: text/plain\r\n\r\n");
    let req = Request::new(&raw).unwrap();
    let v = req.get_header(b"content-type").unwrap();
    assert_eq!(v, b("text/plain"));
    let v2 = req.get_header(b"CONTENT-TYPE").unwrap();
    assert_eq!(v2, b("text/plain"));
}

#[test]
fn get_header_first_match() {
    let raw = b("GET / HTTP/1.1\r\nX: one\r\nx: two\r\n\r\n");
    let req = Request::new(&raw).unwrap();
    assert_eq!(req.get_header(b"X").unwrap(), b("one"));
}

#[test]
fn get_header_absent_is_field_not_found() {
    let raw = b("GET / HTTP/1.1\r\nHost: h\r\n\r\n");
    let req = Request::new(&raw).unwrap();
    let err = req.get_header(b"Content-Length").unwrap_err();
    assert_eq!(err, kpenter::errors::LibError::FieldNotFound);
    assert_eq!(err.message(), "field not found");
}

#[test]
fn is_valid_http_request_accepts_and_rejects() {
    assert!(Request::is_valid_http_request(&b("GET / HTTP/1.1\r\n\r\n")));
    assert!(Request::is_valid_http_request(&b("post /a HTTP/1.0")));
    assert!(!Request::is_valid_http_request(&b("GET /\r\n\r\n")));
    assert!(!Request::is_valid_http_request(&b("DELETE / HTTP/1.1\r\n\r\n")));
    assert!(!Request::is_valid_http_request(&b("")));
}

#[test]
fn content_length_parses_declared_value() {
    let raw = b("POST /x HTTP/1.1\r\nContent-Length: 1234\r\n\r\n");
    let req = Request::new(&raw).unwrap();
    assert_eq!(req.content_length(), Some(1234));
}

#[test]
fn content_length_absent_or_malformed_is_none() {
    let plain = Request::new(&b("GET / HTTP/1.1\r\nHost: h\r\n\r\n")).unwrap();
    assert_eq!(plain.content_length(), None);
    let bad = Request::new(&b("POST /x HTTP/1.1\r\nContent-Length: 12x\r\n\r\n")).unwrap();
    assert_eq!(bad.content_length(), None);
    let empty = Request::new(&b("POST /x HTTP/1.1\r\nContent-Length:\r\n\r\n")).unwrap();
    assert_eq!(empty.content_length(), None);
    let huge = Request::new(&b("POST /x HTTP/1.1\r\nContent-Length: 99999999999999999999\r\n\r\n"))
        .unwrap();
    assert_eq!(huge.content_length(), None);
}
