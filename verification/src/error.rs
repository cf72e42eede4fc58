use vstd::prelude::*;

verus! {

/// Failure conditions of parsing and of preparing an exchange.
///
/// - `MalformedStartLine`: the first line of a message does not split into
///   exactly three space-separated tokens, or its method token is not a
///   recognized method.
/// - `InvalidInput`: a request was handed to the exchange driver without the
///   required `Host` header.
/// - `UnsupportedScheme`: a URL names no explicit port and its scheme has no
///   default port.
#[derive(Debug, Clone, Copy, PartialEq, Eq, Structural)]
pub enum HttpError {
    MalformedStartLine,
    InvalidInput,
    UnsupportedScheme,
}

} // verus!
