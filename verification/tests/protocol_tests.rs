use rustdb::protocol::{format_response, handle_request, parse_request, usize_to_string, HttpResponse, Status};
use rustdb::store::KvStore;

#[test]
fn test_put_then_get() {
    let mut store = KvStore::new();
    let r = handle_request("PUT", "/alice/30", &mut store);
    assert_eq!(r.status, Status::Success);
    assert_eq!(r.body, "");
    let r = handle_request("GET", "/alice", &mut store);
    assert_eq!(r.status, Status::Success);
    assert_eq!(r.body, "30");
}

#[test]
fn test_post_also_upserts() {
    let mut store = KvStore::new();
    let r = handle_request("POST", "/alice/30", &mut store);
    assert_eq!(r.status, Status::Success);
    assert_eq!(store.get("alice"), Some("30".to_string()));
}

#[test]
fn test_get_missing_key() {
    let mut store = KvStore::new();
    let r = handle_request("GET", "/bob", &mut store);
    assert_eq!(r.status, Status::BadRequest);
    assert_eq!(r.body, "Key not found");
}

#[test]
fn test_delete_then_get_is_bad_request() {
    let mut store = KvStore::new();
    handle_request("PUT", "/alice/30", &mut store);
    let r = handle_request("DELETE", "/alice", &mut store);
    assert_eq!(r.status, Status::Success);
    assert_eq!(r.body, "Key alice removed from store");
    let r = handle_request("GET", "/alice", &mut store);
    assert_eq!(r.status, Status::BadRequest);
    assert_eq!(r.body, "Key not found");
}

#[test]
fn test_delete_missing_key() {
    let mut store = KvStore::new();
    let r = handle_request("DELETE", "/bob", &mut store);
    assert_eq!(r.status, Status::BadRequest);
    assert_eq!(r.body, "Key not found");
}

#[test]
fn test_put_three_segments_is_bad_request() {
    let mut store = KvStore::new();
    let r = handle_request("PUT", "/x/y/z", &mut store);
    assert_eq!(r.status, Status::BadRequest);
    assert_eq!(r.body, "Two params required for POST request");
    assert_eq!(store.get("x"), None);
}

#[test]
fn test_put_single_segment_is_bad_request() {
    let mut store = KvStore::new();
    let r = handle_request("PUT", "/x", &mut store);
    assert_eq!(r.status, Status::BadRequest);
    assert_eq!(r.body, "Two params required for POST request");
}

#[test]
fn test_put_empty_segment_is_bad_request() {
    let mut store = KvStore::new();
    let r = handle_request("PUT", "/x/", &mut store);
    assert_eq!(r.status, Status::BadRequest);
    let r = handle_request("PUT", "//y", &mut store);
    assert_eq!(r.status, Status::BadRequest);
}

#[test]
fn test_get_root_lists_everything() {
    let mut store = KvStore::new();
    handle_request("PUT", "/alice/30", &mut store);
    handle_request("PUT", "/carol/40", &mut store);
    let r = handle_request("GET", "/", &mut store);
    assert_eq!(r.status, Status::Success);
    assert_eq!(r.body, "alice: 30\ncarol: 40");
}

#[test]
fn test_get_root_of_empty_store() {
    let mut store = KvStore::new();
    let r = handle_request("GET", "/", &mut store);
    assert_eq!(r.status, Status::Success);
    assert_eq!(r.body, "");
}

#[test]
fn test_unrecognized_method() {
    let mut store = KvStore::new();
    let r = handle_request("PATCH", "/alice", &mut store);
    assert_eq!(r.status, Status::BadRequest);
    assert_eq!(r.body, "Method not allowed");
}

#[test]
fn test_empty_path_is_bad_request() {
    let mut store = KvStore::new();
    let r = handle_request("GET", "", &mut store);
    assert_eq!(r.status, Status::BadRequest);
    assert_eq!(r.body, "Bad request");
    let r = handle_request("DELETE", "", &mut store);
    assert_eq!(r.status, Status::BadRequest);
}

#[test]
fn test_parse_request_line() {
    let parsed = parse_request("GET /alice HTTP/1.1");
    let (method, path, version) = parsed.expect("three pieces expected");
    assert_eq!(method, "GET");
    assert_eq!(path, "/alice");
    assert_eq!(version, "HTTP/1.1");
}

#[test]
fn test_parse_request_skips_whitespace_runs() {
    let parsed = parse_request("GET  /alice HTTP/1.1");
    let (method, path, version) = parsed.expect("three tokens expected");
    assert_eq!(method, "GET");
    assert_eq!(path, "/alice");
    assert_eq!(version, "HTTP/1.1");
}

#[test]
fn test_parse_request_tab_separated() {
    let parsed = parse_request("GET\t/alice\tHTTP/1.1");
    let (method, path, version) = parsed.expect("three tokens expected");
    assert_eq!(method, "GET");
    assert_eq!(path, "/alice");
    assert_eq!(version, "HTTP/1.1");
}

#[test]
fn test_parse_request_surrounding_whitespace() {
    let parsed = parse_request("  GET /alice HTTP/1.1\r\n");
    let (method, path, version) = parsed.expect("three tokens expected");
    assert_eq!(method, "GET");
    assert_eq!(path, "/alice");
    assert_eq!(version, "HTTP/1.1");
}

#[test]
fn test_parse_request_too_short() {
    assert!(parse_request("GET /alice").is_none());
    assert!(parse_request("GET  /alice  ").is_none());
    assert!(parse_request("").is_none());
    assert!(parse_request("   ").is_none());
}

#[test]
fn test_format_response() {
    let resp = HttpResponse { status: Status::Success, body: "30".to_string() };
    assert_eq!(format_response(&resp), "HTTP/1.1 200 OK\r\nContent-Length: 2\r\n\r\n30");
    let resp = HttpResponse { status: Status::BadRequest, body: "Key not found".to_string() };
    assert_eq!(
        format_response(&resp),
        "HTTP/1.1 400 BAD REQUEST\r\nContent-Length: 13\r\n\r\nKey not found"
    );
}

#[test]
fn test_format_response_empty_body() {
    let resp = HttpResponse { status: Status::Success, body: String::new() };
    assert_eq!(format_response(&resp), "HTTP/1.1 200 OK\r\nContent-Length: 0\r\n\r\n");
}

#[test]
fn test_usize_to_string() {
    assert_eq!(usize_to_string(0), "0");
    assert_eq!(usize_to_string(7), "7");
    assert_eq!(usize_to_string(10), "10");
    assert_eq!(usize_to_string(12345), "12345");
}
