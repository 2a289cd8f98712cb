use std::collections::HashMap;

use crab_serve::http_core::http_types::HeaderMap;
use crab_serve::request::{HttpMethods, HttpRequest, Request};

fn as_hash_map(headers: &HeaderMap) -> HashMap<String, String> {
    let mut m = HashMap::new();
    for i in 0..headers.len() {
        let (k, v) = headers.field(i);
        m.insert(k.clone(), v.clone());
    }
    m
}

#[test]
fn test_request_setter_and_getters() {
    let mut request = Request::new(HttpMethods::GET.to_string(), "/person/greeting");

    request.add_header("Content-Type", "application/json");
    request.add_header("Authorization", "Bearer token123");

    let body_content = "{\"name\":\"John Doe\"}";
    request.set_body(body_content.to_string().into_bytes());

    let headers = request.get_headers();
    assert_eq!(headers.get("Content-Type").unwrap(), "application/json");
    assert_eq!(headers.get("Authorization").unwrap(), "Bearer token123");

    let body = request.get_body();
    assert_eq!(body, body_content.to_string().into_bytes());
}

#[test]
fn test_parse_request() {
    let raw_request =
        "GET /hello HTTP/1.1\r\nContent-Type: application/json\r\nAuthorization: Bearer token123\r\n\r\n{\"name\":\"John Doe\"}";
    let request = Request::parse(raw_request);

    assert_eq!(request.method, "GET");
    assert_eq!(request.path, "/hello");

    let mut expected_headers = HashMap::new();
    expected_headers.insert("Content-Type".to_string(), "application/json".to_string());
    expected_headers.insert("Authorization".to_string(), "Bearer token123".to_string());
    assert_eq!(as_hash_map(&request.headers), expected_headers);

    let expected_body = "{\"name\":\"John Doe\"}".as_bytes().to_vec();
    assert_eq!(request.body, expected_body);
}

#[test]
fn test_parse_request_more_larger_request() {
    let raw_request =
        "POST /api/users HTTP/1.1\r\nContent-Type: application/json\r\nAuthorization: Bearer token123\r\nCustom-Header: CustomValue\r\nContent-Length: 47\r\n\r\n{\"name\":\"John Doe\", \"email\":\"john@example.com\"}";

    let request = Request::parse(raw_request);

    assert_eq!(request.method, "POST");
    assert_eq!(request.path, "/api/users");

    println!("{:#?}", request.get_headers());

    let mut expected_headers = HashMap::new();
    expected_headers.insert("Content-Type".to_string(), "application/json".to_string());
    expected_headers.insert("Authorization".to_string(), "Bearer token123".to_string());
    expected_headers.insert("Custom-Header".to_string(), "CustomValue".to_string());
    expected_headers.insert("Content-Length".to_string(), "47".to_string());
    assert_eq!(as_hash_map(&request.headers), expected_headers);

    let expected_body = r#"{"name":"John Doe", "email":"john@example.com"}"#
        .as_bytes()
        .to_vec();
    assert_eq!(request.body, expected_body);
}

#[test]
fn lenient_parse_reads_missing_parts_as_empty() {
    let request = Request::parse("GET");
    assert_eq!(request.method, "GET");
    assert_eq!(request.path, "");
    assert_eq!(request.headers.len(), 0);
    assert!(request.body.is_empty());

    let empty = Request::parse("");
    assert_eq!(empty.method, "");
    assert_eq!(empty.path, "");
}

#[test]
fn lenient_parse_skips_lines_without_colon() {
    let request = Request::parse("GET / HTTP/1.1\r\nBroken\r\nA: b\r\n\r\nxyz");
    assert_eq!(request.headers.len(), 1);
    assert_eq!(request.headers.get("A").unwrap(), "b");
    assert_eq!(request.body, b"xyz".to_vec());
}

#[test]
fn lenient_add_body_replaces_body() {
    let mut request = Request::new("PUT", "/x");
    request.add_body(vec![1, 2, 3]);
    request.add_body(vec![4]);
    assert_eq!(request.get_body(), &[4u8][..]);
    assert_eq!(request.method(), "PUT");
    assert_eq!(request.path(), "/x");
}
