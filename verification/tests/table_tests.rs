use kpenter::config::{ConfUnit, Configuration};
use kpenter::errors::LibError;
use kpenter::mimetype::{Mimetype, MimetypeData};
use kpenter::status;
use kpenter::status::dec_u64_string;
use kpenter::utils::{result_err, to_root_path};

fn b(s: &str) -> Vec<u8> {
    s.as_bytes().to_vec()
}

#[test]
fn config_lookup_and_default() {
    let config = Configuration(vec![
        ConfUnit("server_port".to_string(), "8080".to_string()),
        ConfUnit("home_dir".to_string(), "/www".to_string()),
    ]);
    assert_eq!(config.get_value_or("server_port", "80"), "8080");
    assert_eq!(config.get_value_or("home_dir", "/"), "/www");
    assert_eq!(config.get_value_or("missing", "fallback"), "fallback");
}

#[test]
fn config_set_value_last_write_wins() {
    let mut config = Configuration(vec![]);
    config.set_value("key", "one");
    config.set_value("other", "x");
    config.set_value("key", "two");
    assert_eq!(config.0.len(), 2);
    assert_eq!(config.get_value_or("key", ""), "two");
    assert_eq!(config.get_value_or("other", ""), "x");
}

#[test]
fn config_to_owned_is_independent() {
    let config = Configuration(vec![ConfUnit("a".to_string(), "1".to_string())]);
    let mut copy = config.to_owned();
    copy.set_value("a", "2");
    assert_eq!(config.get_value_or("a", ""), "1");
    assert_eq!(copy.get_value_or("a", ""), "2");
}

#[test]
fn mimetype_lookup_by_extension() {
    let mt = Mimetype {
        mimetype_vec: vec![
            MimetypeData::new(".html".to_string(), "text/html".to_string()),
            MimetypeData::new(".css".to_string(), "text/css".to_string()),
        ],
        default_mimetype: "text/plain".to_string(),
    };
    assert_eq!(mt.get_mimetype(&"page.html".to_string()).unwrap(), "text/html");
    assert_eq!(mt.get_mimetype(&"a.b.css".to_string()).unwrap(), "text/css");
    let err = mt.get_mimetype(&"nodotname".to_string()).unwrap_err();
    assert_eq!(err, LibError::MimetypeNotFound);
    assert_eq!(err.message(), "mimetype not found.");
    assert!(mt.get_mimetype(&"archive.zip".to_string()).is_err());
}

#[test]
fn mimetype_or_and_default_fallbacks() {
    let mt = Mimetype {
        mimetype_vec: vec![MimetypeData::new(".html".to_string(), "text/html".to_string())],
        default_mimetype: "text/plain".to_string(),
    };
    assert_eq!(mt.get_mimetype_or(&"x.html".to_string(), "a/b"), "text/html");
    assert_eq!(mt.get_mimetype_or(&"x.png".to_string(), "a/b"), "a/b");
    assert_eq!(mt.get_mimetype_default(&"x.png".to_string()), "text/plain");
    assert_eq!(mt.get_mimetype_default(&"x.html".to_string()), "text/html");
}

#[test]
fn mimetype_data_accessors() {
    let mut md = MimetypeData::new(".js".to_string(), "text/javascript".to_string());
    assert_eq!(md.get_extension(), ".js");
    assert_eq!(md.get_mimetype(), "text/javascript");
    md.set_mimetype("application/javascript".to_string());
    assert_eq!(md.get_mimetype(), "application/javascript");
    assert_eq!(md.get_extension(), ".js");
    md.delete();
}

#[test]
fn mimetype_to_owned_copies_entries() {
    let mt = Mimetype {
        mimetype_vec: vec![MimetypeData::new(".html".to_string(), "text/html".to_string())],
        default_mimetype: "text/plain".to_string(),
    };
    let copy = mt.to_owned();
    assert_eq!(copy.get_mimetype(&"i.html".to_string()).unwrap(), "text/html");
    assert_eq!(copy.default_mimetype, "text/plain");
    mt.delete();
}

#[test]
fn status_to_string_formats_code_and_reason() {
    assert_eq!(status::request_ok().to_string(), "200: OK");
    assert_eq!(status::bad_request().to_string(), "400: Bad Request");
    assert_eq!(status::forbidden().to_string(), "403: Forbidden");
    assert_eq!(status::not_found().to_string(), "404: Not Found");
    assert_eq!(status::moved_permanently().to_string(), "301: Moved Permanently");
    assert_eq!(status::internal_server_error().to_string(), "500: Internal Server Error");
}

#[test]
fn dec_u64_string_renders_decimal() {
    assert_eq!(dec_u64_string(0), "0");
    assert_eq!(dec_u64_string(7), "7");
    assert_eq!(dec_u64_string(1024), "1024");
    assert_eq!(dec_u64_string(u64::MAX), "18446744073709551615");
}

#[test]
fn result_err_carries_message() {
    let r = result_err("boom");
    assert_eq!(r.unwrap_err(), "boom");
}

#[test]
fn to_root_path_swaps_separators() {
    assert_eq!(to_root_path(&b("/www/index.html"), &b("C:\\root\\.")), b("C:\\root\\.\\www\\index.html"));
    assert_eq!(to_root_path(&b(""), &b("root")), b("root"));
    assert_eq!(to_root_path(&b("no-seps"), &b("")), b("no-seps"));
}
