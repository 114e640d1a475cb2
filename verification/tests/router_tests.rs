use kpenter::response::Response;
use kpenter::router::{
    apply_route_outcome, decide_route, error_page_path, index_path, is_forbidden, split_on_byte,
    strip_query, RouteOutcome,
};

fn b(s: &str) -> Vec<u8> {
    s.as_bytes().to_vec()
}

fn header_pairs(res: &Response) -> Vec<(Vec<u8>, Vec<u8>)> {
    res.header.iter().map(|h| (h.key.clone(), h.value.clone())).collect()
}

#[test]
fn directory_without_trailing_slash_redirects() {
    let prefixes: Vec<Vec<u8>> = vec![];
    let outcome = decide_route(&b("/docs"), &b(""), &prefixes, true, true, false);
    assert_eq!(outcome, RouteOutcome::DirectoryRedirect);
    let mut res = Response::new();
    apply_route_outcome(&mut res, outcome, &b("/docs"), &b("text/html"));
    assert_eq!(res.get_status_code(), 301);
    assert_eq!(res.status_msg, b("Moved Permanently"));
    assert_eq!(
        header_pairs(&res),
        vec![
            (b("Location"), b("/docs/")),
            (b("Server"), b("Aden 0.1")),
            (b("Content-Type"), b("text/html")),
        ]
    );
}

#[test]
fn directory_with_trailing_slash_serves_index() {
    let prefixes: Vec<Vec<u8>> = vec![];
    let outcome = decide_route(&b("/docs/"), &b(""), &prefixes, true, true, false);
    assert_eq!(outcome, RouteOutcome::DirectoryServed);
    let mut res = Response::new();
    apply_route_outcome(&mut res, outcome, &b("/docs/"), &b("text/html"));
    assert_eq!(res.get_status_code(), 200);
    assert_eq!(res.status_msg, b("OK"));
    assert_eq!(
        header_pairs(&res),
        vec![(b("Server"), b("Aden 0.1")), (b("Content-Type"), b("text/html"))]
    );
}

#[test]
fn forbidden_prefix_wins_even_when_nothing_exists() {
    let prefixes = vec![b("/private")];
    let outcome = decide_route(&b("/private/secret.txt"), &b(""), &prefixes, false, false, false);
    assert_eq!(outcome, RouteOutcome::Forbidden);
    let mut res = Response::new();
    apply_route_outcome(&mut res, outcome, &b("/private/secret.txt"), &b("text/plain"));
    assert_eq!(res.get_status_code(), 403);
    assert_eq!(res.status_msg, b("Forbidden"));
    assert_eq!(
        header_pairs(&res),
        vec![(b("Server"), b("Aden 0.1")), (b("Content-Type"), b("text/html"))]
    );
}

#[test]
fn forbidden_prefix_matches_unaliased_path() {
    let prefixes = vec![b("/www/private")];
    let outcome = decide_route(&b("/private/x"), &b("/www"), &prefixes, false, true, true);
    assert_eq!(outcome, RouteOutcome::Forbidden);
    let other = decide_route(&b("/public/x"), &b("/www"), &prefixes, false, false, true);
    assert_eq!(other, RouteOutcome::FileServed);
}

#[test]
fn missing_resource_is_not_found() {
    let prefixes: Vec<Vec<u8>> = vec![];
    let outcome = decide_route(&b("/nothing.here"), &b(""), &prefixes, false, false, false);
    assert_eq!(outcome, RouteOutcome::NotFound);
    let mut res = Response::new();
    apply_route_outcome(&mut res, outcome, &b("/nothing.here"), &b("text/plain"));
    assert_eq!(res.get_status_code(), 404);
    assert_eq!(res.status_msg, b("Not Found"));
    assert_eq!(
        header_pairs(&res),
        vec![(b("Server"), b("Aden 0.1")), (b("Content-Type"), b("text/html"))]
    );
}

#[test]
fn directory_without_index_falls_to_not_found() {
    let prefixes: Vec<Vec<u8>> = vec![];
    let outcome = decide_route(&b("/docs/"), &b(""), &prefixes, true, false, false);
    assert_eq!(outcome, RouteOutcome::NotFound);
}

#[test]
fn file_served_gets_looked_up_content_type() {
    let prefixes: Vec<Vec<u8>> = vec![];
    let outcome = decide_route(&b("/a.css"), &b(""), &prefixes, false, false, true);
    assert_eq!(outcome, RouteOutcome::FileServed);
    let mut res = Response::new();
    apply_route_outcome(&mut res, outcome, &b("/a.css"), &b("text/css"));
    assert_eq!(res.get_status_code(), 200);
    assert_eq!(
        header_pairs(&res),
        vec![(b("Server"), b("Aden 0.1")), (b("Content-Type"), b("text/css"))]
    );
}

#[test]
fn query_is_stripped_before_resolution() {
    assert_eq!(strip_query(&b("/docs?page=1")), b("/docs"));
    assert_eq!(strip_query(&b("/docs")), b("/docs"));
    assert_eq!(strip_query(&b("?x")), b(""));
    let prefixes = vec![b("/private")];
    let outcome = decide_route(&b("/private?q=1"), &b(""), &prefixes, false, false, true);
    assert_eq!(outcome, RouteOutcome::Forbidden);
    let trailing = decide_route(&b("/docs/?q=1"), &b(""), &prefixes, true, true, false);
    assert_eq!(trailing, RouteOutcome::DirectoryServed);
}

#[test]
fn is_forbidden_checks_each_prefix() {
    let prefixes = vec![b("/a"), b("/b")];
    assert!(is_forbidden(&b("/b/c"), &prefixes));
    assert!(!is_forbidden(&b("/c"), &prefixes));
    let none: Vec<Vec<u8>> = vec![];
    assert!(!is_forbidden(&b("/a"), &none));
}

#[test]
fn split_on_byte_keeps_empty_segments() {
    let segs = split_on_byte(&b("/a;/b;"), b';');
    assert_eq!(segs, vec![b("/a"), b("/b"), b("")]);
    let single = split_on_byte(&b(""), b';');
    assert_eq!(single, vec![b("")]);
}

#[test]
fn index_path_joins_with_host_separator() {
    assert_eq!(index_path(&b("\\www\\docs"), &b("index.html")), b("\\www\\docs\\index.html"));
    assert_eq!(index_path(&b("\\www\\docs\\"), &b("index.html")), b("\\www\\docs\\index.html"));
}

#[test]
fn forbidden_response_serializes_to_exact_wire_head() {
    let prefixes = vec![b("/private")];
    let outcome = decide_route(&b("/private/a"), &b(""), &prefixes, false, false, false);
    let mut res = Response::new();
    apply_route_outcome(&mut res, outcome, &b("/private/a"), &b("ignored"));
    res.add_content_from_string(b("<h1>403</h1>"));
    let wire = res.build_header().unwrap();
    let expected = b(
        "HTTP/1.1 403 Forbidden\r\nServer: Aden 0.1\r\nContent-Type: text/html\r\nContent-Length: 12\r\n\r\n",
    );
    assert_eq!(wire, expected);
}

#[test]
fn redirect_response_serializes_location_header() {
    let prefixes: Vec<Vec<u8>> = vec![];
    let outcome = decide_route(&b("/docs"), &b(""), &prefixes, true, true, false);
    let mut res = Response::new();
    apply_route_outcome(&mut res, outcome, &b("/docs"), &b("text/html"));
    res.add_content_from_string(b("index"));
    let wire = res.build_header().unwrap();
    let expected = b(
        "HTTP/1.1 301 Moved Permanently\r\nLocation: /docs/\r\nServer: Aden 0.1\r\nContent-Type: text/html\r\nContent-Length: 5\r\n\r\n",
    );
    assert_eq!(wire, expected);
}

#[test]
fn error_page_path_names_the_status_page() {
    assert_eq!(
        error_page_path(&b("/error"), RouteOutcome::Forbidden),
        Some(b("/error/403.html"))
    );
    assert_eq!(
        error_page_path(&b("/error"), RouteOutcome::NotFound),
        Some(b("/error/404.html"))
    );
    assert_eq!(error_page_path(&b("/error"), RouteOutcome::FileServed), None);
    assert_eq!(error_page_path(&b("/error"), RouteOutcome::DirectoryRedirect), None);
    assert_eq!(error_page_path(&b("/error"), RouteOutcome::DirectoryServed), None);
}
