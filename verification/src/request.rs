//! HTTP requests: fluent construction, parsing from wire text, serialization
//! back to wire text, and the endpoint computation of the exchange driver.

use crate::error::HttpError;
use crate::headers::{assoc_distinct, assoc_find, assoc_insert, Headers};
use crate::message::{
    format_message, lemma_message_roundtrip, parse_message, spec_format_message,
    spec_parse_message, wf_headers, wf_token,
};
use crate::message::{crlf, sp};
use crate::text::{match_at, str_eq};
use vstd::prelude::*;

verus! {

/// The closed set of recognized request methods; the textual form is the
/// exact uppercase token, and any other token is a parse failure.
#[derive(Debug, Clone, Copy, PartialEq, Eq, Structural)]
pub enum HttpMethod {
    GET,
    POST,
}

/// The wire token of a method.
pub open spec fn method_text(m: HttpMethod) -> Seq<char> {
    match m {
        HttpMethod::GET => "GET"@,
        HttpMethod::POST => "POST"@,
    }
}

/// The method named by a token, if any.
pub open spec fn method_of(t: Seq<char>) -> Option<HttpMethod> {
    if t == "GET"@ {
        Some(HttpMethod::GET)
    } else if t == "POST"@ {
        Some(HttpMethod::POST)
    } else {
        None
    }
}

/// The method tokens hold no space and no CRLF, and differ from each other.
pub proof fn lemma_method_tokens()
    ensures
        forall|m: HttpMethod| #![auto] wf_token(method_text(m)),
        forall|m: HttpMethod| #![auto] method_of(method_text(m)) == Some(m),
{
    reveal_strlit("GET");
    reveal_strlit("POST");
    assert("GET"@.len() == 3);
    assert("POST"@.len() == 4);
    assert forall|k: int| 0 <= k < "GET"@.len() implies "GET"@[k] != ' ' && "GET"@[k] != '\r' by {
        if k == 0 {
            assert("GET"@[k] == 'G');
        } else if k == 1 {
            assert("GET"@[k] == 'E');
        } else {
            assert("GET"@[k] == 'T');
        }
    }
    assert forall|k: int| 0 <= k < "POST"@.len() implies "POST"@[k] != ' ' && "POST"@[k]
        != '\r' by {
        if k == 0 {
            assert("POST"@[k] == 'P');
        } else if k == 1 {
            assert("POST"@[k] == 'O');
        } else if k == 2 {
            assert("POST"@[k] == 'S');
        } else {
            assert("POST"@[k] == 'T');
        }
    }
    assert(wf_token("GET"@)) by {
        lemma_token_free("GET"@);
    }
    assert(wf_token("POST"@)) by {
        lemma_token_free("POST"@);
    }
    assert forall|m: HttpMethod| #![auto] wf_token(method_text(m)) by {
        match m {
            HttpMethod::GET => {},
            HttpMethod::POST => {},
        }
    }
}

/// A text free of spaces and carriage returns is a well-formed token.
proof fn lemma_token_free(s: Seq<char>)
    requires
        forall|k: int| 0 <= k < s.len() ==> s[k] != ' ' && s[k] != '\r',
    ensures
        wf_token(s),
{
    assert forall|i: int| !match_at(s, sp(), i) by {
        if match_at(s, sp(), i) {
            assert(s[i + 0] == sp()[0]);
            assert(sp()[0] == ' ');
        }
    }
    assert forall|i: int| !match_at(s, crlf(), i) by {
        if match_at(s, crlf(), i) {
            assert(s[i + 0] == crlf()[0]);
            assert(crlf()[0] == '\r');
        }
    }
}

impl HttpMethod {
    /// The wire token of this method.
    pub fn as_str(&self) -> (r: &'static str)
        ensures
            r@ == method_text(*self),
    {
        match self {
            HttpMethod::GET => "GET",
            HttpMethod::POST => "POST",
        }
    }

    /// The method named by a token, if any.
    pub fn from_str(s: &str) -> (r: Option<HttpMethod>)
        ensures
            r == method_of(s@),
    {
        if str_eq(s, "GET") {
            Some(HttpMethod::GET)
        } else if str_eq(s, "POST") {
            Some(HttpMethod::POST)
        } else {
            None
        }
    }
}

/// An HTTP request as a value: method, target, protocol version, header
/// mapping and body.
#[derive(Debug)]
pub struct Request {
    pub method: HttpMethod,
    pub target: String,
    pub http_version: String,
    pub headers: Headers,
    pub body: String,
}

/// The mathematical value of a request.
pub ghost struct RequestView {
    pub method: HttpMethod,
    pub target: Seq<char>,
    pub http_version: Seq<char>,
    pub headers: Seq<(Seq<char>, Seq<char>)>,
    pub body: Seq<char>,
}

impl View for Request {
    type V = RequestView;

    open spec fn view(&self) -> RequestView {
        RequestView {
            method: self.method,
            target: self.target@,
            http_version: self.http_version@,
            headers: self.headers@,
            body: self.body@,
        }
    }
}

/// Serialization of a request.
pub open spec fn spec_format_request(v: RequestView) -> Seq<char> {
    spec_format_message(method_text(v.method), v.target, v.http_version, v.headers, v.body)
}

/// Parsing of a request: the wire message with its first token read as a
/// method.
pub open spec fn spec_parse_request(msg: Seq<char>) -> Option<RequestView> {
    match spec_parse_message(msg) {
        None => None,
        Some(p) => match method_of(p.token0) {
            None => None,
            Some(m) => Some(
                RequestView {
                    method: m,
                    target: p.token1,
                    http_version: p.token2,
                    headers: p.headers,
                    body: p.body,
                },
            ),
        },
    }
}

/// A request whose serialization parses back unchanged: target and version
/// are tokens, headers are well-formed under distinct keys. The body is
/// unconstrained.
pub open spec fn wf_request(v: RequestView) -> bool {
    wf_token(v.target) && wf_token(v.http_version) && wf_headers(v.headers)
}

/// Round trip: any well-formed request, with any number of headers and any
/// body, parses back from its own serialization exactly, headers in order.
pub proof fn theorem_request_roundtrip(v: RequestView)
    requires
        wf_request(v),
    ensures
        spec_parse_request(spec_format_request(v)) == Some(v),
{
    lemma_method_tokens();
    lemma_message_roundtrip(method_text(v.method), v.target, v.http_version, v.headers, v.body);
}

impl Request {
    /// Keys of the header mapping are unique.
    pub open spec fn wf(&self) -> bool {
        assoc_distinct(self@.headers)
    }

    /// A request of the given method with target `/`, version `HTTP/1.1`, no
    /// headers and an empty body.
    pub fn new(method: HttpMethod) -> (r: Request)
        ensures
            r@ == (RequestView {
                method,
                target: "/"@,
                http_version: "HTTP/1.1"@,
                headers: Seq::empty(),
                body: Seq::empty(),
            }),
            r.wf(),
    {
        let r = Request {
            method,
            target: "/".to_owned(),
            http_version: "HTTP/1.1".to_owned(),
            headers: Headers::new(),
            body: String::new(),
        };
        r
    }

    /// A GET request for the given host: `Host` is set to it and
    /// `Connection: close` is added.
    pub fn get(url: &str) -> (r: Request)
        ensures
            r@ == (RequestView {
                method: HttpMethod::GET,
                target: "/"@,
                http_version: "HTTP/1.1"@,
                headers: seq![("Host"@, url@), ("Connection"@, "close"@)],
                body: Seq::empty(),
            }),
            r.wf(),
    {
        proof {
            reveal_strlit("Host");
            reveal_strlit("Connection");
            assert("Host"@.len() == 4);
            assert("Connection"@.len() == 10);
        }
        let r = Request::new(HttpMethod::GET).add_header("Host", url).add_header(
            "Connection",
            "close",
        );
        proof {
            let h1 = assoc_insert(Seq::empty(), "Host"@, url@);
            assert(h1 =~= seq![("Host"@, url@)]);
            let h2 = assoc_insert(h1, "Connection"@, "close"@);
            assert(h1[0].0 != "Connection"@);
            assert(h1.drop_first() =~= Seq::<(Seq<char>, Seq<char>)>::empty());
            assert(assoc_insert(Seq::<(Seq<char>, Seq<char>)>::empty(), "Connection"@, "close"@)
                =~= seq![("Connection"@, "close"@)]);
            assert(h2 =~= seq![("Host"@, url@), ("Connection"@, "close"@)]);
        }
        r
    }

    /// The same request with its target replaced.
    pub fn set_target(self, target: &str) -> (r: Request)
        ensures
            r@ == (RequestView { target: target@, ..self@ }),
            self.wf() ==> r.wf(),
    {
        Request {
            target: target.to_owned(),
            method: self.method,
            http_version: self.http_version,
            headers: self.headers,
            body: self.body,
        }
    }

    /// The same request with `val` stored under `key`; a prior value for the
    /// same key is replaced.
    pub fn add_header(self, key: &str, val: &str) -> (r: Request)
        ensures
            r@ == (RequestView { headers: assoc_insert(self@.headers, key@, val@), ..self@ }),
            self.wf() ==> r.wf(),
    {
        let mut headers = self.headers;
        headers.insert(key, val);
        Request {
            method: self.method,
            target: self.target,
            http_version: self.http_version,
            headers,
            body: self.body,
        }
    }

    /// The same request with its body replaced.
    pub fn set_body(self, body: &str) -> (r: Request)
        ensures
            r@ == (RequestView { body: body@, ..self@ }),
            self.wf() ==> r.wf(),
    {
        Request {
            body: body.to_owned(),
            method: self.method,
            target: self.target,
            http_version: self.http_version,
            headers: self.headers,
        }
    }

    /// Parse a complete raw request message. Fails exactly when the start
    /// line does not split into exactly three space-separated tokens or its
    /// first token is no recognized method.
    pub fn parse(message: &str) -> (r: Result<Request, HttpError>)
        ensures
            match r {
                Ok(req) => spec_parse_request(message@) == Some(req@) && req.wf(),
                Err(e) => spec_parse_request(message@) is None && e
                    == HttpError::MalformedStartLine,
            },
    {
        let m = match parse_message(message) {
            Ok(m) => m,
            Err(e) => {
                return Err(e);
            },
        };
        match HttpMethod::from_str(m.token0.as_str()) {
            Some(method) => Ok(
                Request {
                    method,
                    target: m.token1,
                    http_version: m.token2,
                    headers: m.headers,
                    body: m.body,
                },
            ),
            None => Err(HttpError::MalformedStartLine),
        }
    }

    /// Serialize this request to wire text.
    pub fn format(&self) -> (r: String)
        ensures
            r@ == spec_format_request(self@),
    {
        format_message(
            self.method.as_str(),
            self.target.as_str(),
            self.http_version.as_str(),
            &self.headers,
            self.body.as_str(),
        )
    }

    /// The transport endpoint of the exchange driver: the `Host` header's
    /// value with the hard-coded port 80. Fails, before any transport
    /// operation exists to attempt, exactly when `Host` is absent.
    pub fn endpoint(&self) -> (r: Result<String, HttpError>)
        ensures
            match r {
                Ok(ep) => assoc_find(self@.headers, "Host"@) is Some && ep@ == assoc_find(
                    self@.headers,
                    "Host"@,
                )->0 + ":80"@,
                Err(e) => assoc_find(self@.headers, "Host"@) is None && e
                    == HttpError::InvalidInput,
            },
    {
        match self.headers.get("Host") {
            Some(h) => {
                let mut ep = String::new();
                ep.append(h.as_str());
                ep.append(":80");
                proof {
                    assert(ep@ =~= assoc_find(self@.headers, "Host"@)->0 + ":80"@);
                }
                Ok(ep)
            },
            None => Err(HttpError::InvalidInput),
        }
    }
}

} // verus!
