use minihttp::error::HttpError;
use minihttp::headers::Headers;
use minihttp::response::Response;

#[test]
fn test_response_parse() {
    let msg = "HTTP/1.1 200 OK\r\nHost: example.com\r\nContent-Length: 19\r\n\r\nResponded!";
    let response = Response::parse(msg).unwrap();
    assert_eq!(&response.http_version, "HTTP/1.1");
    assert_eq!(&response.status_code, "200");
    assert_eq!(&response.reason_phrase, "OK");
    assert_eq!(
        &response.headers.get("Host").unwrap().as_str(),
        &"example.com"
    );
    assert_eq!(
        &response.headers.get("Content-Length").unwrap().as_str(),
        &"19"
    );
    assert_eq!(&response.body, "Responded!");
}

#[test]
fn test_response_format() {
    let mut headers = Headers::new();
    headers.insert("Host", "example.com");
    headers.insert("Content-Length", "19");
    let response = Response {
        http_version: "HTTP/1.1".to_string(),
        status_code: "200".to_string(),
        reason_phrase: "OK".to_string(),
        headers,
        body: "Responded!".to_string(),
    };
    let formatted = response.format();
    assert!(
        &formatted == "HTTP/1.1 200 OK\r\nHost: example.com\r\nContent-Length: 19\r\n\r\nResponded!" ||
        &formatted == "HTTP/1.1 200 OK\r\nContent-Length: 19\r\nHost: example.com\r\n\r\nResponded!"
    );
}

#[test]
fn test_response_parse_then_format() {
    let msg = "HTTP/1.1 200 OK\r\nContent-Length: 19\r\n\r\nResponded!";
    let parsed = Response::parse(msg).unwrap();
    let formatted = parsed.format();
    assert_eq!(msg, &formatted);
}

#[test]
fn response_parse_rejects_reason_with_space() {
    assert_eq!(Response::parse("HTTP/1.1 404 Not Found\r\n\r\n").unwrap_err(), HttpError::MalformedStartLine);
}

#[test]
fn response_parse_rejects_short_start_line() {
    assert_eq!(Response::parse("HTTP/1.1 200").unwrap_err(), HttpError::MalformedStartLine);
}

#[test]
fn response_body_keeps_blank_lines() {
    let msg = "HTTP/1.1 200 OK\r\n\r\nfirst\r\n\r\nsecond";
    let response = Response::parse(msg).unwrap();
    assert_eq!(&response.body, "first\r\n\r\nsecond");
    assert_eq!(response.format(), msg);
}
