//! The request line: its three words, the errors it can give, and the
//! parsed request.

use super::method::{Method, MethodError};
use super::query_string::{query_map, QueryString, ValueView};
use super::text::{
    first_index_of, first_whitespace, is_whitespace, lemma_first_index_of,
    lemma_first_index_of_is, lemma_first_whitespace, lemma_first_whitespace_is, split_at_char,
    split_at_whitespace, str_eq,
};
use std::str::Utf8Error;
use vstd::prelude::*;
use vstd::string::StringSliceAdditionalSpecFns;
use vstd::utf8::{
    decode_utf8, encode_utf8, encode_utf8_decode_utf8, encode_utf8_valid_utf8, valid_utf8,
};

verus! {

/// Why a buffer is not a request line.
#[derive(Debug, Clone, Copy, PartialEq, Eq, Structural)]
pub enum ParseError {
    /// The line has fewer than three words.
    InvalidRequest,
    /// The buffer is not UTF-8.
    InvalidEncoding,
    /// The third word is not `HTTP/1.1`.
    InvalidProtocol,
    /// The first word names no method.
    InvalidMethod,
}

impl ParseError {
    /// The text of [`ParseError::message`].
    pub open spec fn message_text(self) -> Seq<char> {
        match self {
            ParseError::InvalidRequest => "Invalid request"@,
            ParseError::InvalidEncoding => "Invalid encoding"@,
            ParseError::InvalidProtocol => "Invalid protocol"@,
            ParseError::InvalidMethod => "Invalid method"@,
        }
    }

    /// A fixed description of the error, fit to show to a person.
    pub fn message(&self) -> (r: &'static str)
        ensures
            r@ == self.message_text(),
    {
        match self {
            ParseError::InvalidRequest => "Invalid request",
            ParseError::InvalidEncoding => "Invalid encoding",
            ParseError::InvalidProtocol => "Invalid protocol",
            ParseError::InvalidMethod => "Invalid method",
        }
    }
}

/// `core::str::Utf8Error`, the error of `core::str::from_utf8`. Nothing is
/// read from it: it is carried from that call to the conversion below.
#[verifier::external_type_specification]
#[verifier::external_body]
pub struct ExUtf8Error(Utf8Error);

impl From<Utf8Error> for ParseError {
    fn from(_e: Utf8Error) -> (r: ParseError) {
        ParseError::InvalidEncoding
    }
}

impl vstd::std_specs::convert::FromSpecImpl<Utf8Error> for ParseError {
    open spec fn obeys_from_spec() -> bool {
        true
    }

    open spec fn from_spec(_e: Utf8Error) -> ParseError {
        ParseError::InvalidEncoding
    }
}

impl From<MethodError> for ParseError {
    fn from(_e: MethodError) -> (r: ParseError) {
        ParseError::InvalidMethod
    }
}

impl vstd::std_specs::convert::FromSpecImpl<MethodError> for ParseError {
    open spec fn obeys_from_spec() -> bool {
        true
    }

    open spec fn from_spec(_e: MethodError) -> ParseError {
        ParseError::InvalidMethod
    }
}

/// Reads a buffer as text with `core::str::from_utf8`. That function
/// succeeds on well-formed UTF-8 and on nothing else, and the text it
/// returns is the buffer itself, seen as a string slice: its bytes are the
/// buffer's bytes.
#[verifier::external_body]
fn text_of<'a>(buf: &'a [u8]) -> (r: Result<&'a str, Utf8Error>)
    ensures
        r is Ok <==> valid_utf8(buf@),
        r is Ok ==> r->Ok_0.spec_bytes() == buf@,
{
    core::str::from_utf8(buf)
}

/// The protocol that a request line must name.
pub open spec fn protocol() -> Seq<char> {
    "HTTP/1.1"@
}

/// The first word of `s` and what follows it. A word ends before the first
/// whitespace character, which belongs to neither part, or at the end of a
/// text that is not empty. The empty text has no word.
pub open spec fn next_word(s: Seq<char>) -> Option<(Seq<char>, Seq<char>)> {
    let i = first_whitespace(s);
    if 0 <= i < s.len() {
        Some((s.take(i), s.skip(i + 1)))
    } else if s.len() > 0 {
        Some((s, Seq::<char>::empty()))
    } else {
        None
    }
}

/// Splits the first word off `request`.
pub fn get_next_word<'a>(request: &'a str) -> (r: Option<(&'a str, &'a str)>)
    ensures
        match r {
            Some((word, rest)) => next_word(request@) == Some((word@, rest@)),
            None => next_word(request@) is None,
        },
{
    proof {
        lemma_first_whitespace(request@);
    }
    match split_at_whitespace(request) {
        Some(pair) => Some(pair),
        None => {
            if request.is_empty() {
                None
            } else {
                proof {
                    reveal_strlit("");
                    assert(""@ =~= Seq::<char>::empty());
                }
                Some((request, ""))
            }
        },
    }
}

/// The mathematical content of a [`Request`].
pub ghost struct RequestView {
    pub path: Seq<char>,
    pub query_string: Option<Map<Seq<char>, ValueView>>,
    pub method: Method,
}

/// The request that a method and a target give. The target is cut at its
/// first `?`: what stands before it is the path, what stands after it is
/// read as a query string. A target without `?` is all path.
pub open spec fn assemble(method: Method, target: Seq<char>) -> RequestView {
    let i = first_index_of(target, '?');
    if 0 <= i < target.len() {
        RequestView {
            path: target.take(i),
            query_string: Some(query_map(target.skip(i + 1))),
            method,
        }
    } else {
        RequestView { path: target, query_string: None, method }
    }
}

/// What a request line stands for: its first three words are the method,
/// the target and the protocol, and whatever follows them is not looked at.
/// The protocol is checked before the method.
pub open spec fn parse_line(line: Seq<char>) -> Result<RequestView, ParseError> {
    match next_word(line) {
        None => Err(ParseError::InvalidRequest),
        Some((method, after_method)) => match next_word(after_method) {
            None => Err(ParseError::InvalidRequest),
            Some((target, after_target)) => match next_word(after_target) {
                None => Err(ParseError::InvalidRequest),
                Some((word, _)) => if word != protocol() {
                    Err(ParseError::InvalidProtocol)
                } else {
                    match Method::named_by(method) {
                        None => Err(ParseError::InvalidMethod),
                        Some(m) => Ok(assemble(m, target)),
                    }
                },
            },
        },
    }
}

/// What a buffer stands for: it must be UTF-8, and is then read as a
/// request line.
pub open spec fn parse_bytes(bytes: Seq<u8>) -> Result<RequestView, ParseError> {
    if valid_utf8(bytes) {
        parse_line(decode_utf8(bytes))
    } else {
        Err(ParseError::InvalidEncoding)
    }
}

/// A parsed request line, borrowing from the buffer it was read from.
#[derive(Debug)]
pub struct Request<'a> {
    path: &'a str,
    query_string: Option<QueryString<'a>>,
    method: Method,
}

impl<'a> View for Request<'a> {
    type V = RequestView;

    closed spec fn view(&self) -> RequestView {
        RequestView {
            path: self.path@,
            query_string: match self.query_string {
                Some(q) => Some(q@),
                None => None,
            },
            method: self.method,
        }
    }
}

/// The outcome of a parse, with the request taken by its view.
pub open spec fn outcome(r: Result<Request<'_>, ParseError>) -> Result<RequestView, ParseError> {
    match r {
        Ok(request) => Ok(request@),
        Err(e) => Err(e),
    }
}

impl<'a> Request<'a> {
    #[verifier::type_invariant]
    spec fn path_is_plain(&self) -> bool {
        !self.path@.contains('?')
    }

    /// Reads the request line at the start of `buf`.
    pub fn parse(buf: &'a [u8]) -> (r: Result<Request<'a>, ParseError>)
        ensures
            outcome(r) == parse_bytes(buf@),
    {
        let line = match text_of(buf) {
            Ok(line) => line,
            Err(e) => {
                return Err(ParseError::from(e));
            },
        };
        proof {
            broadcast use encode_utf8_decode_utf8;

            assert(line@ == decode_utf8(buf@));
        }
        let (method, rest) = match get_next_word(line) {
            Some(pair) => pair,
            None => {
                return Err(ParseError::InvalidRequest);
            },
        };
        let (target, rest) = match get_next_word(rest) {
            Some(pair) => pair,
            None => {
                return Err(ParseError::InvalidRequest);
            },
        };
        let (word, _) = match get_next_word(rest) {
            Some(pair) => pair,
            None => {
                return Err(ParseError::InvalidRequest);
            },
        };
        if !str_eq(word, "HTTP/1.1") {
            return Err(ParseError::InvalidProtocol);
        }
        let method = match Method::from_token(method) {
            Ok(m) => m,
            Err(e) => {
                return Err(ParseError::from(e));
            },
        };
        proof {
            lemma_first_index_of(target@, '?');
        }
        match split_at_char(target, '?') {
            Some((path, query)) => {
                let query_string = Some(QueryString::parse(query));
                Ok(Request { path, query_string, method })
            },
            None => Ok(Request { path: target, query_string: None, method }),
        }
    }

    /// The target up to its first `?`, or all of it where it has none.
    pub fn path(&self) -> (r: &str)
        ensures
            r@ == self@.path,
            !r@.contains('?'),
    {
        proof {
            use_type_invariant(self);
        }
        self.path
    }

    /// The query string, where the target had a `?`.
    pub fn query_string(&self) -> (r: Option<&QueryString<'a>>)
        ensures
            match r {
                Some(q) => self@.query_string == Some(q@),
                None => self@.query_string is None,
            },
    {
        self.query_string.as_ref()
    }

    /// The method that the first word named.
    pub fn method(&self) -> (r: &Method)
        ensures
            *r == self@.method,
    {
        &self.method
    }
}

impl<'a> TryFrom<&'a [u8]> for Request<'a> {
    type Error = ParseError;

    /// Reads a request line, as [`Request::parse`] does.
    fn try_from(buf: &'a [u8]) -> (r: Result<Request<'a>, ParseError>)
        ensures
            outcome(r) == parse_bytes(buf@),
    {
        Request::parse(buf)
    }
}

/// `try_from` is known by the view of its result alone, as the query string
/// inside a request is.
impl<'a> vstd::std_specs::convert::TryFromSpecImpl<&'a [u8]> for Request<'a> {
    open spec fn obeys_try_from_spec() -> bool {
        false
    }

    open spec fn try_from_spec(buf: &'a [u8]) -> Result<Request<'a>, ParseError> {
        choose|r: Result<Request<'a>, ParseError>| outcome(r) == parse_bytes(buf@)
    }
}

/// The request line that names `method`, `target` and the protocol, each
/// parted from the next by one space.
pub open spec fn request_line(method: Method, target: Seq<char>) -> Seq<char> {
    method.token() + seq![' '] + target + seq![' '] + protocol()
}

/// True where no character of `s` is whitespace.
pub open spec fn no_whitespace(s: Seq<char>) -> bool {
    forall|i: int| 0 <= i < s.len() ==> !is_whitespace(#[trigger] s[i])
}

/// A text without whitespace, followed by a whitespace character, is the
/// first word of the whole, and what follows that character is the rest.
pub proof fn lemma_next_word_before_whitespace(word: Seq<char>, c: char, rest: Seq<char>)
    requires
        no_whitespace(word),
        is_whitespace(c),
    ensures
        next_word(word + seq![c] + rest) == Some((word, rest)),
{
    let s = word + seq![c] + rest;
    assert(s[word.len() as int] == c);
    assert forall|j: int| 0 <= j < word.len() implies !is_whitespace(s[j]) by {
        assert(s[j] == word[j]);
    }
    lemma_first_whitespace_is(s, word.len() as int);
    assert(s.take(word.len() as int) =~= word);
    assert(s.skip(word.len() as int + 1) =~= rest);
}

/// A text without whitespace that is not empty is its own first word, and
/// nothing follows it.
pub proof fn lemma_next_word_at_end(word: Seq<char>)
    requires
        no_whitespace(word),
        word.len() > 0,
    ensures
        next_word(word) == Some((word, Seq::<char>::empty())),
{
    lemma_first_whitespace_is(word, word.len() as int);
}

/// A target without `?` is all path. A path without `?`, then `?`, then any
/// query, is cut again into that path and that query.
pub proof fn lemma_assemble(method: Method, path: Seq<char>, query: Seq<char>)
    requires
        !path.contains('?'),
    ensures
        assemble(method, path) == (RequestView { path, query_string: None, method }),
        assemble(method, path + seq!['?'] + query) == (RequestView {
            path,
            query_string: Some(query_map(query)),
            method,
        }),
{
    lemma_first_index_of_is(path, '?', path.len() as int);
    let target = path + seq!['?'] + query;
    assert(target[path.len() as int] == '?');
    assert forall|j: int| 0 <= j < path.len() implies target[j] != '?' by {
        assert(target[j] == path[j]);
    }
    lemma_first_index_of_is(target, '?', path.len() as int);
    assert(target.take(path.len() as int) =~= path);
    assert(target.skip(path.len() as int + 1) =~= query);
}

/// The line that names a method, a target without whitespace and the
/// protocol is read as that method with that target.
pub proof fn lemma_parse_request_line(method: Method, target: Seq<char>)
    requires
        no_whitespace(target),
    ensures
        parse_line(request_line(method, target)) == Ok::<RequestView, ParseError>(
            assemble(method, target),
        ),
        parse_bytes(encode_utf8(request_line(method, target))) == parse_line(
            request_line(method, target),
        ),
{
    broadcast use {encode_utf8_decode_utf8, encode_utf8_valid_utf8};

    let line = request_line(method, target);
    Method::lemma_token_is_a_word(method);
    Method::lemma_token_names(method);
    assert(no_whitespace(protocol()) && protocol().len() > 0) by {
        reveal_strlit("HTTP/1.1");
    }
    let after_method = target + seq![' '] + protocol();
    assert(line =~= method.token() + seq![' '] + after_method);
    lemma_next_word_before_whitespace(method.token(), ' ', after_method);
    lemma_next_word_before_whitespace(target, ' ', protocol());
    lemma_next_word_at_end(protocol());
}

/// A request line whose target has no `?` parses, with the target as its
/// path and without a query string.
pub proof fn lemma_plain_request(method: Method, path: Seq<char>)
    requires
        no_whitespace(path),
        !path.contains('?'),
    ensures
        parse_bytes(encode_utf8(request_line(method, path))) == Ok::<RequestView, ParseError>(
            RequestView { path, query_string: None, method },
        ),
{
    lemma_parse_request_line(method, path);
    lemma_assemble(method, path, Seq::<char>::empty());
}

/// A path without `?`, joined to any query by a `?`, comes apart again: the
/// request has that path, and its query string is what the query alone is
/// read as.
pub proof fn lemma_request_with_query(method: Method, path: Seq<char>, query: Seq<char>)
    requires
        no_whitespace(path),
        no_whitespace(query),
        !path.contains('?'),
    ensures
        parse_bytes(encode_utf8(request_line(method, path + seq!['?'] + query))) == Ok::<
            RequestView,
            ParseError,
        >(RequestView { path, query_string: Some(query_map(query)), method }),
{
    let target = path + seq!['?'] + query;
    assert(no_whitespace(target)) by {
        assert forall|i: int| 0 <= i < target.len() implies !is_whitespace(
            #[trigger] target[i],
        ) by {
            if i < path.len() {
                assert(target[i] == path[i]);
            } else if i > path.len() {
                assert(target[i] == query[i - path.len() - 1]);
            }
        }
    }
    lemma_parse_request_line(method, target);
    lemma_assemble(method, path, query);
}

/// Parsing has no state: whatever two parses of one buffer return, the
/// outcomes are the same, requests compared by their views.
pub proof fn lemma_parse_is_repeatable(
    buf: Seq<u8>,
    first: Result<Request<'_>, ParseError>,
    second: Result<Request<'_>, ParseError>,
)
    requires
        outcome(first) == parse_bytes(buf),
        outcome(second) == parse_bytes(buf),
    ensures
        outcome(first) == outcome(second),
{
}

} // verus!
