//! HTTP responses: parsing from wire text and serialization back to it.

use crate::error::HttpError;
use crate::headers::{assoc_distinct, Headers};
use crate::message::{
    format_message, lemma_message_roundtrip, parse_message, spec_format_message,
    spec_parse_message, wf_headers, wf_token,
};
use vstd::prelude::*;

verus! {

/// An HTTP response as a value: protocol version, status code, reason
/// phrase, header mapping and body.
#[derive(Debug)]
pub struct Response {
    pub http_version: String,
    pub status_code: String,
    pub reason_phrase: String,
    pub headers: Headers,
    pub body: String,
}

/// The mathematical value of a response.
pub ghost struct ResponseView {
    pub http_version: Seq<char>,
    pub status_code: Seq<char>,
    pub reason_phrase: Seq<char>,
    pub headers: Seq<(Seq<char>, Seq<char>)>,
    pub body: Seq<char>,
}

impl View for Response {
    type V = ResponseView;

    open spec fn view(&self) -> ResponseView {
        ResponseView {
            http_version: self.http_version@,
            status_code: self.status_code@,
            reason_phrase: self.reason_phrase@,
            headers: self.headers@,
            body: self.body@,
        }
    }
}

/// Serialization of a response.
pub open spec fn spec_format_response(v: ResponseView) -> Seq<char> {
    spec_format_message(v.http_version, v.status_code, v.reason_phrase, v.headers, v.body)
}

/// Parsing of a response: the wire message with its tokens read as version,
/// status code and reason phrase.
pub open spec fn spec_parse_response(msg: Seq<char>) -> Option<ResponseView> {
    match spec_parse_message(msg) {
        None => None,
        Some(p) => Some(
            ResponseView {
                http_version: p.token0,
                status_code: p.token1,
                reason_phrase: p.token2,
                headers: p.headers,
                body: p.body,
            },
        ),
    }
}

/// A response whose serialization parses back unchanged: the three start-line
/// fields are tokens (in particular, a reason phrase holds no space), headers
/// are well-formed under distinct keys. The body is unconstrained.
pub open spec fn wf_response(v: ResponseView) -> bool {
    wf_token(v.http_version) && wf_token(v.status_code) && wf_token(v.reason_phrase) && wf_headers(
        v.headers,
    )
}

/// Round trip: any well-formed response, with any number of headers and any
/// body, parses back from its own serialization exactly, headers in order.
pub proof fn theorem_response_roundtrip(v: ResponseView)
    requires
        wf_response(v),
    ensures
        spec_parse_response(spec_format_response(v)) == Some(v),
{
    lemma_message_roundtrip(v.http_version, v.status_code, v.reason_phrase, v.headers, v.body);
}

impl Response {
    /// Keys of the header mapping are unique.
    pub open spec fn wf(&self) -> bool {
        assoc_distinct(self@.headers)
    }

    /// Parse a complete raw response message. Fails exactly when the start
    /// line does not split into exactly three space-separated tokens.
    pub fn parse(message: &str) -> (r: Result<Response, HttpError>)
        ensures
            match r {
                Ok(resp) => spec_parse_response(message@) == Some(resp@) && resp.wf(),
                Err(e) => spec_parse_response(message@) is None && e
                    == HttpError::MalformedStartLine,
            },
    {
        match parse_message(message) {
            Ok(m) => Ok(
                Response {
                    http_version: m.token0,
                    status_code: m.token1,
                    reason_phrase: m.token2,
                    headers: m.headers,
                    body: m.body,
                },
            ),
            Err(e) => Err(e),
        }
    }

    /// Serialize this response to wire text.
    pub fn format(&self) -> (r: String)
        ensures
            r@ == spec_format_response(self@),
    {
        format_message(
            self.http_version.as_str(),
            self.status_code.as_str(),
            self.reason_phrase.as_str(),
            &self.headers,
            self.body.as_str(),
        )
    }
}

} // verus!
