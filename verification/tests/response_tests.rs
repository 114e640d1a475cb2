use kpenter::errors::LibError;
use kpenter::response::{effective_buffer_size, next_chunk_size, Response};

fn b(s: &str) -> Vec<u8> {
    s.as_bytes().to_vec()
}

fn header_pairs(res: &Response) -> Vec<(Vec<u8>, Vec<u8>)> {
    res.header.iter().map(|h| (h.key.clone(), h.value.clone())).collect()
}

#[test]
fn add_header_appends_and_overwrites() {
    let mut res = Response::new();
    res.add_header(b"Server", b"Aden 0.1");
    res.add_header(b"Content-Type", b"text/html");
    assert_eq!(
        header_pairs(&res),
        vec![(b("Server"), b("Aden 0.1")), (b("Content-Type"), b("text/html"))]
    );
    res.add_header(b"content-TYPE", b"text/plain");
    assert_eq!(
        header_pairs(&res),
        vec![(b("Server"), b("Aden 0.1")), (b("Content-Type"), b("text/plain"))]
    );
}

#[test]
fn add_header_twice_keeps_one_entry_with_last_value() {
    let mut res = Response::new();
    res.add_header(b"X-Thing", b"first");
    res.add_header(b"x-thing", b"second");
    assert_eq!(header_pairs(&res), vec![(b("X-Thing"), b("second"))]);
}

#[test]
fn add_header_content_length_is_noop() {
    let mut res = Response::new();
    res.add_header(b"Content-Length", b"99");
    assert_eq!(res.header.len(), 0);
    res.add_header(b"Server", b"Aden 0.1");
    res.add_header(b"CONTENT-length", b"7");
    assert_eq!(header_pairs(&res), vec![(b("Server"), b("Aden 0.1"))]);
}

#[test]
fn remove_header_deletes_first_match() {
    let mut res = Response::new();
    res.add_header(b"A", b"1");
    res.add_header(b"B", b"2");
    res.remove_header(b"a");
    assert_eq!(header_pairs(&res), vec![(b("B"), b("2"))]);
    res.remove_header(b"missing");
    assert_eq!(res.header.len(), 1);
}

#[test]
fn check_ready_needs_all_fields() {
    let mut res = Response::new();
    assert!(!res.check_ready());
    res.set_response_text(Some(b"1.1"), Some(200), Some(b"OK"));
    assert!(!res.check_ready());
    res.add_header(b"Server", b"Aden 0.1");
    assert!(!res.check_ready());
    res.add_content_from_string(b("hello"));
    assert!(res.check_ready());
}

#[test]
fn add_content_from_string_empty_changes_nothing() {
    let mut res = Response::new();
    res.add_content_from_string(b(""));
    assert_eq!(res.get_content_length(), 0);
    res.add_content_from_string(b("abc"));
    assert_eq!(res.get_content_length(), 3);
}

#[test]
fn build_header_not_ready() {
    let mut res = Response::new();
    let err = res.build_header().unwrap_err();
    assert_eq!(err, LibError::NotReady);
    assert_eq!(err.message(), "response is incomplete.");
}

#[test]
fn build_header_exact_bytes() {
    let mut res = Response::new();
    res.set_response_text(Some(b"1.1"), Some(200), Some(b"OK"));
    res.add_header(b"Server", b"Aden 0.1");
    res.add_header(b"Content-Type", b"text/html");
    res.add_content_from_string(b("hello"));
    let wire = res.build_header().unwrap();
    let expected = b(
        "HTTP/1.1 200 OK\r\nServer: Aden 0.1\r\nContent-Type: text/html\r\nContent-Length: 5\r\n\r\n",
    );
    assert_eq!(wire, expected);
}

#[test]
fn build_content_small_single_chunk() {
    let mut res = Response::new();
    res.add_content_from_string(b("hello world"));
    let (chunk, remaining) = res.build_content();
    assert_eq!(chunk, b("hello world"));
    assert_eq!(remaining, 0);
    assert_eq!(res.read_buffer_size, 5_000_000);
}

#[test]
fn build_content_large_multiple_chunks() {
    let total: usize = 2_500_000;
    let content: Vec<u8> = vec![7u8; total];
    let mut res = Response::new();
    res.add_content_from_string(content.clone());
    res.read_buffer_size = 1_000_000;
    let mut emitted: Vec<u8> = Vec::new();
    let mut rounds = 0;
    loop {
        let (chunk, remaining) = res.build_content();
        assert!(chunk.len() <= 1_000_000);
        emitted.extend_from_slice(&chunk);
        rounds += 1;
        if remaining == 0 {
            break;
        }
    }
    assert_eq!(rounds, 3);
    assert_eq!(emitted, content);
}

#[test]
fn round_trip_declared_length_matches_emitted_bytes() {
    for total in [10usize, 2_345_678] {
        let content: Vec<u8> = vec![42u8; total];
        let mut res = Response::new();
        res.set_response_text(Some(b"1.1"), Some(200), Some(b"OK"));
        res.add_header(b"Server", b"Aden 0.1");
        res.add_content_from_string(content);
        if total > 10 {
            res.read_buffer_size = 1_000_000;
        }
        let wire = res.build_header().unwrap();
        let text = String::from_utf8(wire).unwrap();
        let declared: usize = text
            .lines()
            .find(|l| l.starts_with("Content-Length: "))
            .unwrap()
            .trim_start_matches("Content-Length: ")
            .trim()
            .parse()
            .unwrap();
        let mut emitted: usize = 0;
        loop {
            let (chunk, remaining) = res.build_content();
            emitted += chunk.len();
            if remaining == 0 {
                break;
            }
        }
        assert_eq!(declared, total);
        assert_eq!(emitted, total);
    }
}

#[test]
fn buffer_floor_and_chunk_arithmetic() {
    assert_eq!(effective_buffer_size(0), 5_000_000);
    assert_eq!(effective_buffer_size(999_999), 5_000_000);
    assert_eq!(effective_buffer_size(1_000_000), 1_000_000);
    assert_eq!(effective_buffer_size(9_000_000), 9_000_000);
    assert_eq!(next_chunk_size(1_000_000, 2_500_000, 0), 1_000_000);
    assert_eq!(next_chunk_size(1_000_000, 2_500_000, 2_000_000), 500_000);
    assert_eq!(next_chunk_size(1_000_000, 2_500_000, 2_500_000), 0);
}

#[test]
fn getters_report_fields() {
    let mut res = Response::new();
    assert_eq!(res.get_status_code(), 0);
    res.set_response_text(None, Some(404), None);
    assert_eq!(res.get_status_code(), 404);
    res.add_content_from_string(b("abcd"));
    assert_eq!(res.get_content_length(), 4);
}
