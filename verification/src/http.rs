//! The request-line parser and the types it produces.

pub mod method;
pub mod query_string;
pub mod request;
pub mod text;

pub use method::{Method, MethodError};
pub use query_string::{QueryString, Value};
pub use request::{ParseError, Request};
