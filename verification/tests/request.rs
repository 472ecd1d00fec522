use http_request::http::request::get_next_word;
use http_request::http::{Method, ParseError, QueryString, Request, Value};

fn single<'a>(q: &'a QueryString<'a>, key: &str) -> &'a str {
    match q.get(key) {
        Some(Value::Single(v)) => v,
        other => panic!("expected a single value under {:?}, found {:?}", key, other),
    }
}

fn multiple<'a>(q: &'a QueryString<'a>, key: &str) -> Vec<&'a str> {
    match q.get(key) {
        Some(Value::Multiple(v)) => v.clone(),
        other => panic!("expected several values under {:?}, found {:?}", key, other),
    }
}

fn error_of(buf: &[u8]) -> ParseError {
    match Request::parse(buf) {
        Ok(r) => panic!("expected an error, found {:?}", r),
        Err(e) => e,
    }
}

#[test]
fn plain_path_parses_for_every_method() {
    let methods = [
        ("GET", Method::GET),
        ("DELETE", Method::DELETE),
        ("POST", Method::POST),
        ("PUT", Method::PUT),
        ("HEAD", Method::HEAD),
        ("CONNECT", Method::CONNECT),
        ("OPTIONS", Method::OPTIONS),
        ("TRACE", Method::TRACE),
        ("PATCH", Method::PATCH),
    ];
    let paths = ["/", "/index.html", "/a/b/c", "", "no-leading-slash", "/caf\u{e9}/\u{65e5}\u{672c}"];
    for (token, method) in methods {
        for path in paths {
            let line = format!("{} {} HTTP/1.1", token, path);
            let request = Request::parse(line.as_bytes()).unwrap();
            assert_eq!(request.path(), path);
            assert!(request.query_string().is_none());
            assert_eq!(request.method(), &method);
        }
    }
}

#[test]
fn two_keys_each_single() {
    let request = Request::parse(b"GET /search?name=abc&sort=asc HTTP/1.1").unwrap();
    assert_eq!(request.path(), "/search");
    assert_eq!(request.method(), &Method::GET);
    let q = request.query_string().unwrap();
    assert_eq!(single(q, "name"), "abc");
    assert_eq!(single(q, "sort"), "asc");
    assert!(q.get("other").is_none());
}

#[test]
fn repeated_key_keeps_the_order_met() {
    let request = Request::parse(b"GET /search?name=a&name=b&name=c HTTP/1.1").unwrap();
    assert_eq!(request.path(), "/search");
    let q = request.query_string().unwrap();
    assert_eq!(multiple(q, "name"), vec!["a", "b", "c"]);
}

#[test]
fn key_without_equals_has_the_empty_value() {
    let request = Request::parse(b"GET /search?flag HTTP/1.1").unwrap();
    assert_eq!(request.path(), "/search");
    let q = request.query_string().unwrap();
    assert_eq!(single(q, "flag"), "");
}

#[test]
fn other_protocol_is_refused() {
    assert_eq!(error_of(b"GET /path HTTP/2.0"), ParseError::InvalidProtocol);
    assert_eq!(error_of(b"POST /path HTTP/1.0"), ParseError::InvalidProtocol);
    assert_eq!(error_of(b"GET /path http/1.1"), ParseError::InvalidProtocol);
    assert_eq!(error_of(b"GET /path HTTP/1.1x"), ParseError::InvalidProtocol);
    assert_eq!(error_of(b"GET /path  HTTP/1.1"), ParseError::InvalidProtocol);
}

#[test]
fn unknown_method_is_refused() {
    assert_eq!(error_of(b"FOO /path HTTP/1.1"), ParseError::InvalidMethod);
    assert_eq!(error_of(b"get /path HTTP/1.1"), ParseError::InvalidMethod);
    assert_eq!(error_of(b" GET /path"), ParseError::InvalidProtocol);
    assert_eq!(error_of(b" /path HTTP/1.1"), ParseError::InvalidMethod);
}

#[test]
fn protocol_is_checked_before_method() {
    assert_eq!(error_of(b"FOO /path HTTP/2.0"), ParseError::InvalidProtocol);
}

#[test]
fn fewer_than_three_words_is_refused() {
    assert_eq!(error_of(b"GET /path"), ParseError::InvalidRequest);
    assert_eq!(error_of(b"GET /path "), ParseError::InvalidRequest);
    assert_eq!(error_of(b"GET"), ParseError::InvalidRequest);
    assert_eq!(error_of(b"GET "), ParseError::InvalidRequest);
    assert_eq!(error_of(b""), ParseError::InvalidRequest);
    assert_eq!(error_of(b" "), ParseError::InvalidRequest);
}

#[test]
fn invalid_utf8_is_refused() {
    assert_eq!(error_of(&[0xff, 0xfe, 0xfd]), ParseError::InvalidEncoding);
    assert_eq!(error_of(b"GET /\xc3\x28 HTTP/1.1"), ParseError::InvalidEncoding);
    assert_eq!(error_of(b"GET / HTTP/1.1\r\n\x80"), ParseError::InvalidEncoding);
    assert_eq!(error_of(b"FOO /path HTTP/2.0 \xed\xa0\x80"), ParseError::InvalidEncoding);
}

#[test]
fn parsing_twice_gives_the_same() {
    let buf = b"PUT /items?id=7&tag=x&tag=y HTTP/1.1\r\nHost: example\r\n\r\n";
    let first = Request::parse(buf).unwrap();
    let second = Request::parse(buf).unwrap();
    assert_eq!(first.path(), second.path());
    assert_eq!(first.method(), second.method());
    assert_eq!(format!("{:?}", first), format!("{:?}", second));
    let a = first.query_string().unwrap();
    let b = second.query_string().unwrap();
    assert_eq!(single(a, "id"), single(b, "id"));
    assert_eq!(multiple(a, "tag"), multiple(b, "tag"));
    assert_eq!(error_of(b"GET /x"), error_of(b"GET /x"));
}

#[test]
fn path_and_query_come_apart_again() {
    let plain = Request::parse(b"GET /items HTTP/1.1").unwrap();
    let query = "a=1&b=2&a=3&c";
    let line = format!("GET {}?{} HTTP/1.1", plain.path(), query);
    let joined = Request::parse(line.as_bytes()).unwrap();
    assert_eq!(joined.path(), plain.path());
    let got = joined.query_string().unwrap();
    let alone = QueryString::parse(query);
    assert_eq!(multiple(got, "a"), multiple(&alone, "a"));
    assert_eq!(multiple(got, "a"), vec!["1", "3"]);
    assert_eq!(single(got, "b"), single(&alone, "b"));
    assert_eq!(single(got, "c"), single(&alone, "c"));
    assert_eq!(format!("{:?}", got), format!("{:?}", alone));
}

#[test]
fn bare_question_mark_gives_one_empty_key() {
    let request = Request::parse(b"GET /path? HTTP/1.1").unwrap();
    assert_eq!(request.path(), "/path");
    let q = request.query_string().unwrap();
    assert_eq!(single(q, ""), "");
}

#[test]
fn only_the_first_question_mark_cuts() {
    let request = Request::parse(b"GET /a?b?c=d HTTP/1.1").unwrap();
    assert_eq!(request.path(), "/a");
    let q = request.query_string().unwrap();
    assert_eq!(single(q, "b?c"), "d");
    let request = Request::parse(b"GET ?x=1 HTTP/1.1").unwrap();
    assert_eq!(request.path(), "");
    assert_eq!(single(request.query_string().unwrap(), "x"), "1");
}

#[test]
fn what_follows_the_third_word_is_ignored() {
    let request =
        Request::parse(b"DELETE /items/3 HTTP/1.1\r\nHost: localhost\r\n\r\nbody").unwrap();
    assert_eq!(request.path(), "/items/3");
    assert_eq!(request.method(), &Method::DELETE);
    assert!(request.query_string().is_none());
    let request = Request::parse(b"GET / HTTP/1.1 ").unwrap();
    assert_eq!(request.path(), "/");
}

#[test]
fn any_unicode_whitespace_parts_the_words() {
    let request = Request::parse(b"GET\t/tab\nHTTP/1.1\r\n").unwrap();
    assert_eq!(request.path(), "/tab");
    let line = "POST\u{a0}/caf\u{e9}?q=\u{65e5}\u{672c}\u{2003}HTTP/1.1\u{3000}rest";
    let request = Request::parse(line.as_bytes()).unwrap();
    assert_eq!(request.method(), &Method::POST);
    assert_eq!(request.path(), "/caf\u{e9}");
    assert_eq!(single(request.query_string().unwrap(), "q"), "\u{65e5}\u{672c}");
}

#[test]
fn next_word_cuts_at_the_first_whitespace() {
    assert_eq!(get_next_word("GET /path HTTP/1.1"), Some(("GET", "/path HTTP/1.1")));
    assert_eq!(get_next_word("/path HTTP/1.1"), Some(("/path", "HTTP/1.1")));
    assert_eq!(get_next_word(" x"), Some(("", "x")));
    assert_eq!(get_next_word("a  b"), Some(("a", " b")));
    assert_eq!(get_next_word("a\r\nb"), Some(("a", "\nb")));
    assert_eq!(get_next_word("\u{e9}t\u{e9}\u{2028}fin"), Some(("\u{e9}t\u{e9}", "fin")));
    assert_eq!(get_next_word("a "), Some(("a", "")));
}

#[test]
fn next_word_takes_the_last_word_whole() {
    assert_eq!(get_next_word("HTTP/1.1"), Some(("HTTP/1.1", "")));
    assert_eq!(get_next_word("\u{65e5}"), Some(("\u{65e5}", "")));
    assert_eq!(get_next_word(""), None);
}

#[test]
fn each_error_has_its_message() {
    assert_eq!(ParseError::InvalidRequest.message(), "Invalid request");
    assert_eq!(ParseError::InvalidEncoding.message(), "Invalid encoding");
    assert_eq!(ParseError::InvalidProtocol.message(), "Invalid protocol");
    assert_eq!(ParseError::InvalidMethod.message(), "Invalid method");
}

#[test]
fn errors_convert_from_their_causes() {
    let bad = vec![0xc0u8, 0x80];
    let cause = std::str::from_utf8(&bad).unwrap_err();
    assert_eq!(ParseError::from(cause), ParseError::InvalidEncoding);
    let cause = "nope".parse::<Method>().unwrap_err();
    assert_eq!(ParseError::from(cause), ParseError::InvalidMethod);
}

#[test]
fn try_from_is_parse() {
    let buf: &[u8] = b"PATCH /x?y=z HTTP/1.1\r\n";
    let request = Request::try_from(buf).unwrap();
    assert_eq!(request.path(), "/x");
    assert_eq!(request.method(), &Method::PATCH);
    assert_eq!(single(request.query_string().unwrap(), "y"), "z");
    let buf: &[u8] = b"PATCH";
    assert_eq!(Request::try_from(buf).unwrap_err(), ParseError::InvalidRequest);
}
