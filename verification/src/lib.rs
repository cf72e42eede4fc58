//! A minimal HTTP/1.1 text-message library: it parses raw request and
//! response messages into structured values, serializes structured values
//! back into wire-format text, builds outgoing requests fluently, and
//! decomposes URL strings into their component parts.

pub mod error;
pub mod headers;
pub mod message;
pub mod request;
pub mod response;
pub mod text;
pub mod url;
