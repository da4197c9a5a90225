use simpleton::request::Request;

#[test]
fn request_test_new() {
    let req = Request::new("GET", "example.com", "/");

    assert_eq!(req.method, String::from("GET"));
    assert_eq!(req.headers.get("host"), Some(&"example.com".into()));
    assert_eq!(req.uri, String::from("/"));
}

#[test]
fn request_test_to_string() {
    let req = Request::new("GET", "example.com", "/");

    assert!(req.to_string().starts_with("GET / HTTP/1.1\n"));
}

#[test]
fn to_string_lists_headers_in_order_and_ends_with_blank_line() {
    let req = Request::new("GET", "example.com", "/index.html");
    assert_eq!(
        req.to_string(),
        "GET /index.html HTTP/1.1\naccept: */*\nhost: example.com\nuser-agent: SimpletonHTTP/0.0.0\n\n"
    );
}

#[test]
fn send_writes_the_utf8_head() {
    let req = Request::new("GET", "example.com", "/");
    let mut out = vec![1u8];
    req.send(&mut out);
    let mut expected = vec![1u8];
    expected.extend_from_slice(req.to_string().as_bytes());
    assert_eq!(out, expected);
}

#[test]
fn parse_request_line_and_headers() {
    let req = Request::from_str("GET /index.html HTTP/1.1\r\nHost: x\r\n\r\n").unwrap();
    assert_eq!(req.method, "GET");
    assert_eq!(req.uri, "/index.html");
    assert_eq!(req.version, "HTTP/1.1");
    assert_eq!(req.headers.get("host"), Some(&"x".to_string()));
}

#[test]
fn parse_trims_names_and_values_and_splits_on_first_colon() {
    let req = Request::from_str("GET / HTTP/1.0\n  X-Time :  12:30:00  \nBroken line\n").unwrap();
    assert_eq!(req.headers.get("x-time"), Some(&"12:30:00".to_string()));
    assert_eq!(req.headers.entries().len(), 1);
}

#[test]
fn parse_stops_at_the_first_blank_line() {
    let req = Request::from_str("GET / HTTP/1.1\nA: 1\n\nB: 2\n").unwrap();
    assert_eq!(req.headers.get("a"), Some(&"1".to_string()));
    assert_eq!(req.headers.get("b"), None);
}

#[test]
fn parse_accepts_any_whitespace_between_fields() {
    let req = Request::from_str("  HEAD\t/x   HTTP/1.1  ").unwrap();
    assert_eq!(req.method, "HEAD");
    assert_eq!(req.uri, "/x");
    assert_eq!(req.version, "HTTP/1.1");
}

#[test]
fn parse_of_empty_message_fails() {
    assert_eq!(
        Request::from_str("").err(),
        Some("Could not read request line".to_string())
    );
}

#[test]
fn parse_of_short_or_long_request_line_fails() {
    assert_eq!(
        Request::from_str("GET /\nHost: x\n").err(),
        Some("Could not parse request line".to_string())
    );
    assert_eq!(
        Request::from_str("GET / HTTP/1.1 extra\n").err(),
        Some("Could not parse request line".to_string())
    );
    assert_eq!(
        Request::from_str("\nGET / HTTP/1.1\n").err(),
        Some("Could not parse request line".to_string())
    );
}

#[test]
fn parse_of_to_string_gives_back_the_request_line() {
    let req = Request::new("OPTIONS", "example.com:8080", "/a/b?c=d");
    let back = Request::from_str(&req.to_string()).unwrap();
    assert_eq!(back.method, req.method);
    assert_eq!(back.uri, req.uri);
    assert_eq!(back.version, req.version);
    assert_eq!(back.headers.entries(), req.headers.entries());
}

#[test]
fn canonical_uri_resolves_parent_components_at_the_root() {
    let mut req = Request::new("GET", "x", "/a/../../b");
    assert_eq!(req.get_uri(), "/b");
    req.uri = "/../x".to_string();
    assert_eq!(req.get_uri(), "/x");
    req.uri = "/../../etc/passwd".to_string();
    assert_eq!(req.get_uri(), "/etc/passwd");
}

#[test]
fn canonical_uri_drops_empty_and_current_components() {
    let mut req = Request::new("GET", "x", "//a/./b//c/");
    assert_eq!(req.get_uri(), "/a/b/c");
    req.uri = "".to_string();
    assert_eq!(req.get_uri(), "/");
    req.uri = "/".to_string();
    assert_eq!(req.get_uri(), "/");
    req.uri = "a/b/..".to_string();
    assert_eq!(req.get_uri(), "/a");
    req.uri = "/.../..x".to_string();
    assert_eq!(req.get_uri(), "/.../..x");
}
