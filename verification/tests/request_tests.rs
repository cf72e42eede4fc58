use minihttp::error::HttpError;
use minihttp::headers::Headers;
use minihttp::request::{HttpMethod, Request};

#[test]
fn test_request_parse() {
    let msg = "GET / HTTP/1.1\r\nHost: example.com\r\nContent-Length: 11\r\n\r\nRequesting!";
    let request = Request::parse(msg).unwrap();
    assert_eq!(request.method, HttpMethod::GET);
    assert_eq!(&request.target, "/");
    assert_eq!(&request.http_version, "HTTP/1.1");
    assert_eq!(
        &request.headers.get("Host").unwrap().as_str(),
        &"example.com"
    );
    assert_eq!(
        &request.headers.get("Content-Length").unwrap().as_str(),
        &"11"
    );
    assert_eq!(&request.body, "Requesting!");
}

#[test]
fn test_request_format() {
    let mut headers = Headers::new();
    headers.insert("Host", "example.com");
    headers.insert("Content-Length", "11");
    let request = Request {
        method: HttpMethod::GET,
        target: "/".to_string(),
        http_version: "HTTP/1.1".to_string(),
        headers,
        body: "Requesting!".to_string(),
    };
    let formatted = request.format();
    assert!(
        &formatted == "GET / HTTP/1.1\r\nHost: example.com\r\nContent-Length: 11\r\n\r\nRequesting!" ||
        &formatted == "GET / HTTP/1.1\r\nContent-Length: 11\r\nHost: example.com\r\n\r\nRequesting!"
    );
}

#[test]
fn test_request_parse_then_format() {
    let msg = "GET / HTTP/1.1\r\nContent-Length: 11\r\n\r\nRequesting!";
    let parsed = Request::parse(msg).unwrap();
    let formatted = parsed.format();
    assert_eq!(msg, &formatted);
}

#[test]
fn request_builder_get_defaults() {
    let request = Request::get("example.com");
    assert_eq!(request.method, HttpMethod::GET);
    assert_eq!(&request.target, "/");
    assert_eq!(&request.http_version, "HTTP/1.1");
    assert_eq!(request.headers.get("Host").unwrap().as_str(), "example.com");
    assert_eq!(request.headers.get("Connection").unwrap().as_str(), "close");
    assert_eq!(&request.body, "");
}

#[test]
fn request_builder_transforms() {
    let request = Request::get("example.com")
        .set_target("/index.html")
        .add_header("Accept", "text/html")
        .set_body("payload");
    assert_eq!(&request.target, "/index.html");
    assert_eq!(request.headers.get("Accept").unwrap().as_str(), "text/html");
    assert_eq!(&request.body, "payload");
}

#[test]
fn request_builder_header_overwrite() {
    let request = Request::get("example.com").add_header("Host", "other.org");
    assert_eq!(request.headers.get("Host").unwrap().as_str(), "other.org");
    assert_eq!(request.headers.len(), 2);
}

#[test]
fn request_parse_rejects_short_start_line() {
    assert_eq!(Request::parse("GET /").unwrap_err(), HttpError::MalformedStartLine);
}

#[test]
fn request_parse_rejects_long_start_line() {
    assert_eq!(Request::parse("GET / HTTP/1.1 extra\r\n\r\n").unwrap_err(), HttpError::MalformedStartLine);
}

#[test]
fn request_parse_rejects_unknown_method() {
    assert_eq!(Request::parse("PUT / HTTP/1.1\r\n\r\n").unwrap_err(), HttpError::MalformedStartLine);
}

#[test]
fn request_parse_trims_header_value() {
    let request = Request::parse("GET / HTTP/1.1\r\nContent-Length: 11 \r\n\r\n").unwrap();
    assert_eq!(request.headers.get("Content-Length").unwrap().as_str(), "11");
    let request = Request::parse("GET / HTTP/1.1\r\nContent-Length:  11\r\n\r\n").unwrap();
    assert_eq!(request.headers.get("Content-Length").unwrap().as_str(), "11");
    let request = Request::parse("GET / HTTP/1.1\r\nContent-Length: \u{a0}11\u{2009}\r\n\r\n").unwrap();
    assert_eq!(request.headers.get("Content-Length").unwrap().as_str(), "11");
}

#[test]
fn request_parse_skips_line_without_separator() {
    let request = Request::parse("GET / HTTP/1.1\r\nContent-Length:11\r\n\r\n").unwrap();
    assert!(request.headers.get("Content-Length").is_none());
    assert_eq!(request.headers.len(), 0);
}

#[test]
fn request_roundtrip_multi_header() {
    let request = Request::get("example.com")
        .add_header("Accept", "text/html")
        .set_body("one\r\ntwo");
    let parsed = Request::parse(&request.format()).unwrap();
    assert_eq!(parsed.headers.len(), 3);
    assert_eq!(parsed.headers.get("Host").unwrap().as_str(), "example.com");
    assert_eq!(parsed.headers.get("Connection").unwrap().as_str(), "close");
    assert_eq!(parsed.headers.get("Accept").unwrap().as_str(), "text/html");
    assert_eq!(&parsed.body, "one\r\ntwo");
    assert_eq!(parsed.format(), request.format());
}

#[test]
fn request_roundtrip_empty_body() {
    let msg = "GET / HTTP/1.1\r\nHost: example.com\r\n\r\n";
    let parsed = Request::parse(msg).unwrap();
    assert_eq!(&parsed.body, "");
    assert_eq!(parsed.format(), msg);
}

#[test]
fn request_endpoint_requires_host() {
    let with_host = Request::get("example.com");
    assert_eq!(with_host.endpoint(), Ok("example.com:80".to_string()));
    let without_host = Request::new(HttpMethod::GET);
    assert_eq!(without_host.endpoint(), Err(HttpError::InvalidInput));
}
