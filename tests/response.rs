use simpleton::response::Response;
use simpleton::server::Server;

#[test]
fn response_test_new() {
    let _server = Server::new();
    let res = Response::new();

    assert_eq!(res.status_code(), 200);
}

#[test]
fn response_test_to_string() {
    let _server = Server::new();
    let res = Response::new();

    assert!(res.to_string().starts_with("HTTP/1.1 200 Ok\n"));
}

#[test]
fn new_response_is_dated_by_the_clock() {
    let res = Response::new();
    let date = res.date().clone();
    // "%a, %d %b %y %T %Z": a weekday name, a comma, a two-digit day.
    assert!(date.len() >= 22, "{}", date);
    assert_eq!(&date[3..5], ", ");
    assert_eq!(date.matches(':').count(), 2);
    assert!(!date.contains('%'));
}

#[test]
fn send_head_completes_the_header_fields() {
    let mut res = Response::with_date("Thu, 01 Jan 70 00:00:00 UTC".to_string());
    res.write(b"hello");
    let mut out = Vec::new();
    res.send_head(&mut out);
    assert_eq!(
        String::from_utf8(out).unwrap(),
        "HTTP/1.1 200 Ok\nconnection: close\ncontent-length: 5\ndate: Thu, 01 Jan 70 00:00:00 UTC\nserver: SimpletonHTTP/0.0.0\n\n"
    );
    assert!(res.head_sent());
    assert!(!res.is_finished());
}

#[test]
fn send_head_keeps_a_content_length_already_set() {
    let mut res = Response::with_date("d".to_string());
    res.set_header("Content-Length", "99");
    let mut out = Vec::new();
    res.send_head(&mut out);
    assert_eq!(res.get_header("content-length"), Some(&"99".to_string()));
}

#[test]
fn send_head_twice_writes_the_head_once() {
    let mut res = Response::with_date("d".to_string());
    res.write(b"body");
    let mut once = Vec::new();
    res.send_head(&mut once);
    let mut twice = once.clone();
    res.send_head(&mut twice);
    assert_eq!(once, twice);
    assert!(!String::from_utf8(twice).unwrap().contains("body"));
}

#[test]
fn send_writes_head_then_body_once() {
    let mut res = Response::with_date("d".to_string());
    res.write(b"hi");
    let mut out = Vec::new();
    res.send(&mut out);
    let text = String::from_utf8(out.clone()).unwrap();
    assert!(text.starts_with("HTTP/1.1 200 Ok\n"));
    assert!(text.ends_with("\n\nhi"));
    assert!(text.contains("content-length: 2\n"));
    res.send(&mut out);
    assert_eq!(String::from_utf8(out).unwrap(), text);
    assert!(res.is_finished());
}

#[test]
fn send_head_only_omits_the_body() {
    let mut res = Response::with_date("d".to_string());
    res.write(b"hi");
    let mut out = Vec::new();
    res.send_head_only(&mut out);
    let text = String::from_utf8(out.clone()).unwrap();
    assert!(text.contains("content-length: 2\n"));
    assert!(text.ends_with("\n\n"));
    res.send(&mut out);
    assert_eq!(String::from_utf8(out).unwrap(), text);
}

#[test]
fn status_and_headers_are_frozen_once_the_head_is_sent() {
    let mut res = Response::with_date("d".to_string());
    res.set_status(404, "Not Found");
    let mut out = Vec::new();
    res.send_head(&mut out);
    res.set_status(500, "Oops");
    res.set_header("x-late", "1");
    assert_eq!(res.status_code(), 404);
    assert_eq!(res.status_message(), "Not Found");
    assert_eq!(res.get_header("x-late"), None);
    assert!(String::from_utf8(out).unwrap().starts_with("HTTP/1.1 404 Not Found\n"));
}

#[test]
fn body_writes_append_and_set_body_replaces() {
    let mut res = Response::with_date("d".to_string());
    res.write(b"ab");
    res.write(b"cd");
    assert_eq!(res.body(), &b"abcd".to_vec());
    res.set_body(b"xyz".to_vec());
    assert_eq!(res.body(), &b"xyz".to_vec());
}

#[test]
fn empty_body_gets_a_zero_content_length() {
    let mut res = Response::with_date("d".to_string());
    let mut out = Vec::new();
    res.send(&mut out);
    assert!(String::from_utf8(out).unwrap().contains("content-length: 0\n"));
}

#[test]
fn end_redates_only_before_the_head_is_sent() {
    let mut res = Response::with_date("old".to_string());
    res.end();
    assert_ne!(res.date(), "old");
    let mut res = Response::with_date("old".to_string());
    let mut out = Vec::new();
    res.send_head(&mut out);
    res.end();
    assert_eq!(res.date(), "old");
}
