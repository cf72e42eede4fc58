use minihttp::error::HttpError;
use minihttp::url::Url;

#[test]
fn test_url_parse() {
    let url = Url::parse(
        "http://docs.python.org:80/3/library/urllib.parse.html?highlight=params#url-parsing",
    )
    .unwrap();
    assert_eq!(&url.scheme, "http");
    assert_eq!(&url.netloc, "docs.python.org:80");
    assert_eq!(&url.hostname, "docs.python.org");
    assert_eq!(&url.port, "80");
    assert_eq!(&url.path, "/3/library/urllib.parse.html");
    assert_eq!(&url.query, "highlight=params");
    assert_eq!(&url.fragment, "url-parsing");
}

#[test]
fn url_default_port_https() {
    let url = Url::parse("https://example.com/x").unwrap();
    assert_eq!(&url.port, "443");
    assert_eq!(&url.hostname, "example.com");
    assert_eq!(&url.netloc, "example.com");
    assert_eq!(&url.path, "/x");
}

#[test]
fn url_default_port_http() {
    let url = Url::parse("http://example.com/x").unwrap();
    assert_eq!(&url.port, "80");
    assert_eq!(&url.netloc, "example.com");
}

#[test]
fn url_unsupported_scheme() {
    assert_eq!(
        Url::parse("ftp://example.com/x").unwrap_err(),
        HttpError::UnsupportedScheme
    );
    assert_eq!(
        Url::parse("example.com/x").unwrap_err(),
        HttpError::UnsupportedScheme
    );
}

#[test]
fn url_explicit_port_without_scheme() {
    let url = Url::parse("example.com:8080/x").unwrap();
    assert_eq!(&url.scheme, "");
    assert_eq!(&url.port, "8080");
    assert_eq!(&url.hostname, "example.com");
    assert_eq!(&url.netloc, "example.com:8080");
    assert_eq!(&url.path, "/x");
}

#[test]
fn url_empty_explicit_port_falls_back_to_default() {
    let url = Url::parse("http://example.com:/x").unwrap();
    assert_eq!(&url.hostname, "example.com");
    assert_eq!(&url.port, "80");
    assert_eq!(&url.netloc, "example.com:");
}

#[test]
fn url_params_query_fragment() {
    let url = Url::parse("http://h:1/p;par?q=1#f").unwrap();
    assert_eq!(&url.scheme, "http");
    assert_eq!(&url.hostname, "h");
    assert_eq!(&url.port, "1");
    assert_eq!(&url.path, "/p");
    assert_eq!(&url.params, "par");
    assert_eq!(&url.query, "q=1");
    assert_eq!(&url.fragment, "f");
}

#[test]
fn url_get_url_reassembles() {
    let text = "http://docs.python.org:80/3/library/urllib.parse.html?highlight=params#url-parsing";
    let url = Url::parse(text).unwrap();
    assert_eq!(url.get_url(), text);
    let bare = Url::parse("http://example.com:80").unwrap();
    assert_eq!(bare.get_url(), "http://example.com:80");
}

#[test]
fn url_roundtrip_keeps_inferred_port_out_of_text() {
    let url = Url::parse("http://example.com/x").unwrap();
    assert_eq!(url.get_url(), "http://example.com/x");
    assert_eq!(&url.port, "80");
}
