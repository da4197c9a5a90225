use simpleton::headers::Headers;

#[test]
fn test_set() {
    let mut headers = Headers::new();

    headers.set("content-type".into(), "text/html".into());
    assert_eq!(headers.get("content-type"), Some(&"text/html".into()));

    // The name of the header is case insensitive
    headers.set("Content-Type".into(), "text/plain".into());
    assert_eq!(headers.get("content-type"), Some(&"text/plain".into()));
}

#[test]
fn test_get() {
    let mut headers = Headers::new();

    assert_eq!(headers.get("not-set"), None);

    headers.set("content-type".into(), "text/html".into());
    assert_eq!(headers.get("content-type"), Some(&"text/html".into()));

    // The name of the header is case insensitive
    assert_eq!(headers.get("Content-Type"), Some(&"text/html".into()));
}

#[test]
fn set_then_get_with_other_case() {
    let mut headers = Headers::new();
    headers.set("X-Custom-Header", "42");
    assert_eq!(headers.get("x-custom-header"), Some(&"42".to_string()));
    assert_eq!(headers.get("X-CUSTOM-HEADER"), Some(&"42".to_string()));
    assert!(headers.contains_key("x-CuStOm-HeAdEr"));
    assert!(!headers.contains_key("x-other"));
}

#[test]
fn names_are_stored_lower_cased() {
    let mut headers = Headers::new();
    headers.set("Content-Type", "text/html");
    let entries = headers.entries();
    assert_eq!(entries, vec![("content-type".to_string(), "text/html".to_string())]);
}

#[test]
fn entries_come_in_ascending_order_of_name() {
    let mut headers = Headers::new();
    headers.set("Content-Type", "text/html");
    headers.set("Accept", "*/*");
    headers.set("Host", "example.com");
    headers.set("accept", "text/plain");
    let names: Vec<String> = headers.entries().into_iter().map(|(n, _)| n).collect();
    assert_eq!(names, vec!["accept", "content-type", "host"]);
    assert_eq!(headers.get("ACCEPT"), Some(&"text/plain".to_string()));
}

#[test]
fn prefix_names_order_before_longer_names() {
    let mut headers = Headers::new();
    headers.set("ab", "2");
    headers.set("a", "1");
    headers.set("b", "3");
    let names: Vec<String> = headers.entries().into_iter().map(|(n, _)| n).collect();
    assert_eq!(names, vec!["a", "ab", "b"]);
}

#[test]
fn empty_headers_have_no_entries() {
    let headers = Headers::new();
    assert!(headers.entries().is_empty());
    assert!(!headers.contains_key(""));
}
