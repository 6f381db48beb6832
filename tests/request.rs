use oxyweb::request::{body_wanted, content_length_of, head_complete, MAX_BODY};
use oxyweb::{Method, ParseError, Request};

fn parse(s: &[u8]) -> Result<Request, ParseError> {
    Request::parse(s)
}

#[test]
fn bare_get_parses() {
    let r = parse(b"GET / HTTP/1.1\r\n\r\n").unwrap();
    assert_eq!(r.method, Method::Get);
    assert_eq!(r.path, "/");
    assert_eq!(r.version, "HTTP/1.1");
    assert!(r.headers.is_empty());
    assert_eq!(r.body, "");
}

#[test]
fn content_length_body_is_read() {
    let r = parse(b"POST /form HTTP/1.1\r\nContent-Length: 5\r\n\r\nhello").unwrap();
    assert_eq!(r.method, Method::Post);
    assert_eq!(r.headers, vec!["Content-Length: 5".to_string()]);
    assert_eq!(r.body, "hello");
}

#[test]
fn written_request_reads_back() {
    let headers = ["Host: example.org", "Accept: */*", "Accept: text/html", "Content-Length: 3"];
    let mut wire = b"PUT /a/b?x=1 HTTP/1.0\r\n".to_vec();
    for h in headers.iter() {
        wire.extend_from_slice(h.as_bytes());
        wire.extend_from_slice(b"\r\n");
    }
    wire.extend_from_slice(b"\r\nabc");
    let r = parse(&wire).unwrap();
    assert_eq!(r.method, Method::Put);
    assert_eq!(r.path, "/a/b?x=1");
    assert_eq!(r.version, "HTTP/1.0");
    assert_eq!(r.headers, headers.iter().map(|h| h.to_string()).collect::<Vec<_>>());
    assert_eq!(r.body, "abc");
}

#[test]
fn empty_input_is_closed_early() {
    assert_eq!(parse(b"").unwrap_err(), ParseError::ConnectionClosedEarly);
}

#[test]
fn two_tokens_are_malformed() {
    assert_eq!(parse(b"GET /\r\n\r\n").unwrap_err(), ParseError::MalformedRequestLine);
}

#[test]
fn four_tokens_are_malformed() {
    assert_eq!(parse(b"GET / HTTP/1.1 x\r\n\r\n").unwrap_err(), ParseError::MalformedRequestLine);
}

#[test]
fn double_space_is_malformed() {
    assert_eq!(parse(b"GET  / HTTP/1.1\r\n\r\n").unwrap_err(), ParseError::MalformedRequestLine);
}

#[test]
fn invalid_path_encoding_is_refused() {
    assert_eq!(parse(b"GET /\xff HTTP/1.1\r\n\r\n").unwrap_err(), ParseError::InvalidHeadEncoding);
}

#[test]
fn invalid_header_encoding_stops_the_headers() {
    let r = parse(b"POST / HTTP/1.1\r\nA: 1\r\nX: \xc3\x28\r\nB: 2\r\nContent-Length: 2\r\n\r\nhi").unwrap();
    assert_eq!(r.headers, vec!["A: 1".to_string()]);
    assert_eq!(r.body, "");
}

#[test]
fn invalid_body_encoding_is_refused() {
    assert_eq!(
        parse(b"GET / HTTP/1.1\r\nContent-Length: 2\r\n\r\n\xff\xfe").unwrap_err(),
        ParseError::InvalidBodyEncoding
    );
}

#[test]
fn body_over_the_ceiling_is_refused() {
    let wire = format!("POST / HTTP/1.1\r\nContent-Length: {}\r\n\r\n", MAX_BODY + 1);
    assert_eq!(parse(wire.as_bytes()).unwrap_err(), ParseError::BodyTooLarge);
}

#[test]
fn body_at_the_ceiling_is_read() {
    let mut wire = format!("POST / HTTP/1.1\r\nContent-Length: {}\r\n\r\n", MAX_BODY).into_bytes();
    wire.extend(std::iter::repeat(b'a').take(MAX_BODY));
    assert_eq!(parse(&wire).unwrap().body.len(), 4096);
}

#[test]
fn short_body_is_closed_early() {
    assert_eq!(
        parse(b"POST / HTTP/1.1\r\nContent-Length: 5\r\n\r\nhel").unwrap_err(),
        ParseError::ConnectionClosedEarly
    );
}

#[test]
fn bytes_after_the_body_are_ignored() {
    let r = parse(b"POST / HTTP/1.1\r\nContent-Length: 2\r\n\r\nhello").unwrap();
    assert_eq!(r.body, "he");
}

#[test]
fn end_of_input_before_blank_line_keeps_headers() {
    let r = parse(b"GET /x HTTP/1.1\r\nHost: a\r\nContent-Length: 4").unwrap();
    assert_eq!(r.headers, vec!["Host: a".to_string(), "Content-Length: 4".to_string()]);
    assert_eq!(r.body, "");
}

#[test]
fn request_line_alone_parses() {
    let r = parse(b"HEAD /only HTTP/1.1").unwrap();
    assert_eq!(r.method, Method::Head);
    assert_eq!(r.version, "HTTP/1.1");
    assert!(r.headers.is_empty());
}

#[test]
fn unreadable_content_length_is_ignored() {
    let r = parse(b"POST / HTTP/1.1\r\nContent-Length: abc\r\n\r\nhello").unwrap();
    assert_eq!(r.body, "");
    assert_eq!(r.headers.len(), 1);
}

#[test]
fn last_readable_content_length_wins() {
    let r = parse(b"POST / HTTP/1.1\r\nContent-Length: 2\r\nContent-Length: 4\r\nContent-Length: x\r\n\r\nhello")
        .unwrap();
    assert_eq!(r.body, "hell");
}

#[test]
fn content_length_key_and_value_are_trimmed() {
    let r = parse(b"POST / HTTP/1.1\r\n Content-Length :\t+3 \r\n\r\nhello").unwrap();
    assert_eq!(r.body, "hel");
}

#[test]
fn content_length_key_is_case_sensitive() {
    let r = parse(b"POST / HTTP/1.1\r\ncontent-length: 3\r\n\r\nhello").unwrap();
    assert_eq!(r.body, "");
}

#[test]
fn path_is_kept_verbatim() {
    let r = parse(b"GET /a/../b/%20?q=1 HTTP/1.1\r\n\r\n").unwrap();
    assert_eq!(r.path, "/a/../b/%20?q=1");
}

#[test]
fn duplicate_headers_are_kept_in_order() {
    let r = parse(b"GET / HTTP/1.1\r\nA: 1\r\nA: 2\r\nA: 1\r\n\r\n").unwrap();
    assert_eq!(r.headers, vec!["A: 1".to_string(), "A: 2".to_string(), "A: 1".to_string()]);
}

#[test]
fn unknown_method_never_fails() {
    assert_eq!(parse(b"get / HTTP/1.1\r\n\r\n").unwrap().method, Method::Unknown);
    assert_eq!(parse(b"BREW /pot HTTP/1.1\r\n\r\n").unwrap().method, Method::Unknown);
}

#[test]
fn methods_from_tokens() {
    let all = [
        ("OPTIONS", Method::Options),
        ("GET", Method::Get),
        ("HEAD", Method::Head),
        ("POST", Method::Post),
        ("PUT", Method::Put),
        ("DELETE", Method::Delete),
        ("TRACE", Method::Trace),
        ("CONNECT", Method::Connect),
        ("Get", Method::Unknown),
        ("", Method::Unknown),
    ];
    for (t, m) in all.iter() {
        assert_eq!(Method::from(*t), *m);
        assert_eq!(Method::from_token(t.as_bytes()), *m);
    }
}

#[test]
fn content_length_of_lines() {
    assert_eq!(content_length_of(b"Content-Length: 12"), Some(12));
    assert_eq!(content_length_of(b"Content-Length:"), None);
    assert_eq!(content_length_of(b"Content-Length: 99999999999999999999999"), None);
    assert_eq!(content_length_of(b"Host: 12"), None);
    assert_eq!(content_length_of(b"Content-Length 12"), None);
}

#[test]
fn head_is_complete_at_the_blank_line() {
    assert!(!head_complete(b""));
    assert!(!head_complete(b"GET / HTTP/1.1\r\n"));
    assert!(!head_complete(b"GET / HTTP/1.1\r\nHost: a\r\n"));
    assert!(head_complete(b"GET / HTTP/1.1\r\nHost: a\r\n\r\n"));
    assert!(head_complete(b"GET / HTTP/1.1\r\n\r\n"));
}

#[test]
fn body_wanted_after_the_head() {
    assert_eq!(body_wanted(b"POST / HTTP/1.1\r\nContent-Length: 5\r\n\r\n"), 5);
    assert_eq!(body_wanted(b"POST / HTTP/1.1\r\nContent-Length: 5\r\n"), 0);
    assert_eq!(body_wanted(b"POST / HTTP/1.1\r\nContent-Length: 5000\r\n\r\n"), 0);
    assert_eq!(body_wanted(b"GET / HTTP/1.1\r\n\r\n"), 0);
}

#[test]
fn content_length_trims_unicode_space() {
    let r = parse("POST / HTTP/1.1\r\nContent-Length:\u{a0}5\r\n\r\nhello".as_bytes()).unwrap();
    assert_eq!(r.body, "hello");
    let r = parse("POST / HTTP/1.1\r\n\u{3000}Content-Length\u{2009}: 3\u{85}\r\n\r\nhello".as_bytes()).unwrap();
    assert_eq!(r.body, "hel");
    assert_eq!(content_length_of("Content-Length: \u{202f}7\u{1680}".as_bytes()), Some(7));
    assert_eq!(content_length_of("Content-Length: \u{200b}7".as_bytes()), None);
}
