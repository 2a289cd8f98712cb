use crab_serve::database::mongodb::MongoDB;
use crab_serve::db::Database;
use crab_serve::http_core::http_types::{ContentType, HeaderMap, HttpMethods, ParseFromString};
use crab_serve::http_core::request::{HttpRequest, Request, RequestError};
use crab_serve::http_core::response::{EncodingError, Response};
use crab_serve::server::{handle_request_bytes, respond, route, CrabServer};
use crab_serve::text::{decimal_string, same_text};

#[test]
fn strict_parse_keeps_non_json_body_verbatim() {
    let raw = "POST /notes HTTP/1.1\r\nContent-Type: text/plain\r\n\r\n  hello,  world \r\n";
    let req = Request::parse(raw).unwrap();
    assert_eq!(req.method, "POST");
    assert_eq!(req.path, "/notes");
    assert_eq!(req.body, b"  hello,  world \r\n".to_vec());
    assert_eq!(req.headers.get("Content-Length").unwrap(), "18");
    assert_eq!(req.headers.get("Content-Type").unwrap(), "text/plain");
}

#[test]
fn strict_parse_reencodes_json_body() {
    let raw = "POST /api/users HTTP/1.1\r\nContent-Type: application/json\r\nContent-Length: 47\r\n\r\n{\"name\":\"John Doe\", \"email\":\"john@example.com\"}";
    let req = Request::parse(raw).unwrap();
    let canonical = r#"{"email":"john@example.com","name":"John Doe"}"#;
    assert_eq!(req.body, canonical.as_bytes().to_vec());
    assert_eq!(req.headers.get("Content-Length").unwrap(), "46");
}

#[test]
fn strict_parse_sets_content_length_for_empty_body() {
    let req = Request::parse("GET / HTTP/1.1\r\n\r\n").unwrap();
    assert!(req.body.is_empty());
    assert_eq!(req.headers.get("Content-Length").unwrap(), "0");
    assert_eq!(req.headers.len(), 1);
}

#[test]
fn strict_parse_last_duplicate_header_wins() {
    let req = Request::parse("GET / HTTP/1.1\r\nX:  one \r\nX: two\r\n\r\n").unwrap();
    assert_eq!(req.headers.get("X").unwrap(), "two");
}

#[test]
fn strict_parse_method_without_path_fails() {
    assert!(matches!(Request::parse("GET"), Err(RequestError::PathNotFoundError)));
}

#[test]
fn strict_parse_empty_input_fails() {
    assert!(matches!(Request::parse(""), Err(RequestError::RequestLineParseError)));
}

#[test]
fn strict_parse_blank_request_line_fails() {
    assert!(matches!(Request::parse("   \r\n\r\n"), Err(RequestError::MethodNotFoundError)));
}

#[test]
fn strict_parse_without_delimiter_fails() {
    let r = Request::parse("GET / HTTP/1.1\r\nHost: example\r\n");
    assert!(matches!(r, Err(RequestError::HeadersBodyDelimiterNotFoundError)));
}

#[test]
fn strict_parse_header_without_colon_fails() {
    match Request::parse("GET / HTTP/1.1\r\nBroken line\r\n\r\n") {
        Err(RequestError::MalformedHeaderError(line)) => assert_eq!(line, "Broken line"),
        _ => panic!("expected a malformed header"),
    }
}

#[test]
fn strict_parse_bad_json_fails() {
    let r = Request::parse("POST / HTTP/1.1\r\nContent-Type: application/json\r\n\r\n{\"a\":");
    assert!(matches!(r, Err(RequestError::JsonBodyProcessingError(_))));
}

#[test]
fn set_body_and_content_length_counts_bytes() {
    let mut headers = HeaderMap::new();
    <Request as HttpRequest>::set_body_and_content_length(&mut headers, "héllo".as_bytes());
    assert_eq!(headers.get("Content-Length").unwrap(), "6");
}

#[test]
fn format_writes_status_headers_and_body() {
    let resp = Response::new(201).add_header("X-A", "1").add_body(b"done".to_vec());
    let bytes = resp.format().unwrap();
    assert_eq!(bytes, b"HTTP/1.1 201 Created\r\nX-A: 1\r\n\r\ndone".to_vec());
}

#[test]
fn format_reason_phrases() {
    let cases = [
        (200u16, "OK"),
        (201, "Created"),
        (400, "Bad Request"),
        (401, "Unauthorized"),
        (403, "Forbidden"),
        (404, "Not Found"),
        (500, "Internal Server Error"),
        (299, "Unknown"),
    ];
    for (code, reason) in cases {
        let bytes = Response::new(code).format().unwrap();
        assert_eq!(String::from_utf8(bytes).unwrap(), format!("HTTP/1.1 {} {}\r\n\r\n", code, reason));
    }
}

#[test]
fn format_rejects_non_utf8_body() {
    let resp = Response::new(200).add_body(vec![0xff, 0xfe]);
    assert_eq!(resp.format(), Err(EncodingError::InvalidBodyEncoding));
}

#[test]
fn format_round_trip_splits_back() {
    let resp = Response::new(404)
        .add_header("A", "x")
        .add_header("B", "y")
        .add_header("A", "z")
        .add_body(b"gone\r\n\r\nstill body".to_vec());
    let text = String::from_utf8(resp.format().unwrap()).unwrap();
    let (head, body) = text.split_once("\r\n\r\n").unwrap();
    assert_eq!(body, "gone\r\n\r\nstill body");
    let mut lines = head.split("\r\n");
    assert_eq!(lines.next().unwrap(), "HTTP/1.1 404 Not Found");
    let fields: Vec<&str> = lines.collect();
    assert_eq!(fields, vec!["A: z", "B: y"]);
}

#[test]
fn json_body_sets_content_type() {
    let resp = Response::new(200)
        .add_header("Content-Type", "text/plain")
        .set_encoded_json_body(b"{\"a\":1}".to_vec());
    assert_eq!(resp.headers().get("Content-Type").unwrap(), "application/json");
    assert_eq!(resp.body(), b"{\"a\":1}");
    assert_eq!(resp.status_code(), 200);
}

#[test]
fn respond_root_is_welcome() {
    let out = respond("GET / HTTP/1.1\r\n\r\n").unwrap();
    let text = String::from_utf8(out).unwrap();
    assert!(text.starts_with("HTTP/1.1 200 OK\r\n"));
    assert_eq!(text, "HTTP/1.1 200 OK\r\n\r\nWelcome to CrabServer");
}

#[test]
fn respond_hello_path() {
    let out = respond("GET /hello HTTP/1.1\r\n\r\n").unwrap();
    assert_eq!(
        String::from_utf8(out).unwrap(),
        "HTTP/1.1 200 OK\r\n\r\nWelcome to CrabServer Other path, so the router is working"
    );
}

#[test]
fn respond_unknown_path_is_not_found() {
    let out = respond("GET /nowhere HTTP/1.1\r\n\r\n").unwrap();
    assert_eq!(String::from_utf8(out).unwrap(), "HTTP/1.1 404 Not Found\r\n\r\nNot Found");
}

#[test]
fn respond_to_malformed_request_is_silent() {
    assert!(respond("GET").is_none());
    assert!(handle_request_bytes(&[0xc3, 0x28]).is_none());
    assert!(handle_request_bytes(b"GET / HTTP/1.1\r\n\r\n").is_some());
}

#[test]
fn route_table() {
    assert_eq!(route("/").status_code, 200);
    assert_eq!(route("/hello").status_code, 200);
    assert_eq!(route("/other").body, b"Not Found".to_vec());
}

#[test]
fn content_type_classification() {
    assert!(matches!(ContentType::classify("application/json"), ContentType::ApplicationJson));
    assert!(matches!(ContentType::classify("image/gif"), ContentType::ImageGif));
    match ContentType::from_str("text/csv") {
        Ok(ContentType::Custom(s)) => assert_eq!(s, "text/csv"),
        _ => panic!("expected a custom content type"),
    }
}

#[test]
fn method_names() {
    assert_eq!(HttpMethods::GET.to_string(), "GET");
    assert_eq!(HttpMethods::PATCH.to_string(), "PATCH");
    assert_eq!(crab_serve::request::HttpMethods::TRACE.to_string(), "TRACE");
}

#[test]
fn decimal_and_text_helpers() {
    assert_eq!(decimal_string(0), "0");
    assert_eq!(decimal_string(1024), "1024");
    assert!(same_text("abc", "abc"));
    assert!(!same_text("abc", "abd"));
}

#[test]
fn mongodb_defaults() {
    let db = MongoDB::new("mongodb://localhost:27017/".to_string(), "Actix_Example".to_string());
    assert_eq!(db.database_name, "Actix_Example");
    assert!(db.retry_reads && db.retry_writes && !db.use_tls);
    assert!(db.auth_username.is_none());
}

#[test]
fn server_address() {
    let server = CrabServer::new([127, 0, 0, 1], 8080);
    assert_eq!(server.ip, [127, 0, 0, 1]);
    assert_eq!(server.port, 8080);
}
