//! The HTTP methods a request line may name.

use super::text::{is_whitespace, str_eq};
use vstd::prelude::*;

verus! {

/// An HTTP request method.
#[derive(Debug, Clone, Copy, PartialEq, Eq, Structural)]
pub enum Method {
    GET,
    DELETE,
    POST,
    PUT,
    HEAD,
    CONNECT,
    OPTIONS,
    TRACE,
    PATCH,
}

/// The failure to read a token as a method.
#[derive(Debug, Clone, Copy, PartialEq, Eq, Structural)]
pub struct MethodError;

impl Method {
    /// The token that names this method on the wire.
    pub open spec fn token(self) -> Seq<char> {
        match self {
            Method::GET => "GET"@,
            Method::DELETE => "DELETE"@,
            Method::POST => "POST"@,
            Method::PUT => "PUT"@,
            Method::HEAD => "HEAD"@,
            Method::CONNECT => "CONNECT"@,
            Method::OPTIONS => "OPTIONS"@,
            Method::TRACE => "TRACE"@,
            Method::PATCH => "PATCH"@,
        }
    }

    /// The method that `s` names, letter for letter and in upper case.
    pub open spec fn named_by(s: Seq<char>) -> Option<Method> {
        if s == Method::GET.token() {
            Some(Method::GET)
        } else if s == Method::DELETE.token() {
            Some(Method::DELETE)
        } else if s == Method::POST.token() {
            Some(Method::POST)
        } else if s == Method::PUT.token() {
            Some(Method::PUT)
        } else if s == Method::HEAD.token() {
            Some(Method::HEAD)
        } else if s == Method::CONNECT.token() {
            Some(Method::CONNECT)
        } else if s == Method::OPTIONS.token() {
            Some(Method::OPTIONS)
        } else if s == Method::TRACE.token() {
            Some(Method::TRACE)
        } else if s == Method::PATCH.token() {
            Some(Method::PATCH)
        } else {
            None
        }
    }

    /// The nine tokens are pairwise distinct, so each method is named by its
    /// own token and by nothing else.
    pub proof fn lemma_token_names(m: Method)
        ensures
            Method::named_by(m.token()) == Some(m),
    {
        reveal_strlit("GET");
        reveal_strlit("DELETE");
        reveal_strlit("POST");
        reveal_strlit("PUT");
        reveal_strlit("HEAD");
        reveal_strlit("CONNECT");
        reveal_strlit("OPTIONS");
        reveal_strlit("TRACE");
        reveal_strlit("PATCH");
        assert("GET"@.len() == 3);
        assert("DELETE"@.len() == 6);
        assert("POST"@.len() == 4);
        assert("PUT"@.len() == 3);
        assert("HEAD"@.len() == 4);
        assert("CONNECT"@.len() == 7);
        assert("OPTIONS"@.len() == 7);
        assert("TRACE"@.len() == 5);
        assert("PATCH"@.len() == 5);
        assert("GET"@[0] != "PUT"@[0]);
        assert("POST"@[0] != "HEAD"@[0]);
        assert("CONNECT"@[0] != "OPTIONS"@[0]);
        assert("TRACE"@[0] != "PATCH"@[0]);
    }

    /// A token is not empty and holds no whitespace.
    pub proof fn lemma_token_is_a_word(m: Method)
        ensures
            m.token().len() > 0,
            forall|i: int| 0 <= i < m.token().len() ==> !is_whitespace(#[trigger] m.token()[i]),
    {
        reveal_strlit("GET");
        reveal_strlit("DELETE");
        reveal_strlit("POST");
        reveal_strlit("PUT");
        reveal_strlit("HEAD");
        reveal_strlit("CONNECT");
        reveal_strlit("OPTIONS");
        reveal_strlit("TRACE");
        reveal_strlit("PATCH");
    }

    /// Reads a token as a method; the match is exact and case-sensitive.
    pub fn from_token(s: &str) -> (r: Result<Method, MethodError>)
        ensures
            r == (match Method::named_by(s@) {
                Some(m) => Ok::<Method, MethodError>(m),
                None => Err(MethodError),
            }),
    {
        if str_eq(s, "GET") {
            Ok(Method::GET)
        } else if str_eq(s, "DELETE") {
            Ok(Method::DELETE)
        } else if str_eq(s, "POST") {
            Ok(Method::POST)
        } else if str_eq(s, "PUT") {
            Ok(Method::PUT)
        } else if str_eq(s, "HEAD") {
            Ok(Method::HEAD)
        } else if str_eq(s, "CONNECT") {
            Ok(Method::CONNECT)
        } else if str_eq(s, "OPTIONS") {
            Ok(Method::OPTIONS)
        } else if str_eq(s, "TRACE") {
            Ok(Method::TRACE)
        } else if str_eq(s, "PATCH") {
            Ok(Method::PATCH)
        } else {
            Err(MethodError)
        }
    }
}

impl std::str::FromStr for Method {
    type Err = MethodError;

    fn from_str(s: &str) -> (r: Result<Method, MethodError>)
        ensures
            r == (match Method::named_by(s@) {
                Some(m) => Ok::<Method, MethodError>(m),
                None => Err(MethodError),
            }),
    {
        Method::from_token(s)
    }
}

} // verus!
