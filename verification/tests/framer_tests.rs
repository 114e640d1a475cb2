use kpenter::framer::{head_complete, HeadScanner};

fn b(s: &str) -> Vec<u8> {
    s.as_bytes().to_vec()
}

#[test]
fn head_complete_checks_four_byte_tail() {
    assert!(head_complete(&b("GET / HTTP/1.1\r\n\r\n")));
    assert!(head_complete(&b("\r\n\r\n")));
    assert!(!head_complete(&b("GET / HTTP/1.1\r\n")));
    assert!(!head_complete(&b("\r\n\r")));
    assert!(!head_complete(&b("")));
    assert!(!head_complete(&b("\n\r\n\r")));
}

#[test]
fn scanner_finds_terminator_byte_by_byte() {
    let mut sc = HeadScanner::new();
    for byte in b("GET / HTTP/1.1\r\nHost: h\r\n\r\n") {
        assert!(!sc.done());
        sc.feed(byte);
    }
    assert!(sc.done());
}

#[test]
fn scanner_handles_partial_matches() {
    let mut sc = HeadScanner::new();
    for byte in b("a\r\nb\r\r\n\r\n") {
        sc.feed(byte);
    }
    assert!(sc.done());
    let mut sc2 = HeadScanner::new();
    for byte in b("\r\n\r\r\n") {
        sc2.feed(byte);
    }
    assert!(!sc2.done());
}

#[test]
fn scanner_stays_done_after_terminator() {
    let mut sc = HeadScanner::new();
    sc.feed_chunk(&b("x\r\n\r\n"));
    assert!(sc.done());
    sc.feed_chunk(&b("trailing bytes"));
    assert!(sc.done());
}

#[test]
fn scanner_finds_terminator_across_chunks() {
    let mut sc = HeadScanner::new();
    sc.feed_chunk(&b("GET / HTTP/1.1\r"));
    assert!(!sc.done());
    sc.feed_chunk(&b("\n\r"));
    assert!(!sc.done());
    sc.feed_chunk(&b("\n"));
    assert!(sc.done());
}

#[test]
fn scanner_agrees_with_tail_check_on_clean_streams() {
    let head = b("POST /x HTTP/1.0\r\nA: 1\r\n\r\n");
    let mut sc = HeadScanner::new();
    let mut seen: Vec<u8> = Vec::new();
    for byte in head {
        sc.feed(byte);
        seen.push(byte);
        assert_eq!(sc.done(), head_complete(&seen));
    }
}
