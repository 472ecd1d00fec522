//! Parsing of an HTTP/1.1 request line and its query string into borrowed,
//! structured views over the caller's buffer.

pub mod http;
