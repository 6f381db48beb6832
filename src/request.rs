//! HTTP requests, and the parser that reads one from the bytes of a connection.
use vstd::prelude::*;
use vstd::slice::*;
use vstd::string::*;
use vstd::utf8::*;

use crate::bytes::{
    bytes_eq, crlf, crlf_at, lemma_find_from, find_byte, find_from, find_line_end, lemma_line_end_from, line_end,
    parse_decimal, parse_usize, trim, trim_bytes, utf8_string,
};

verus! {

/// HTTP method, as defined under RFC 2616.
///
/// `Unknown` stands for every token that is not one of the others.
#[derive(Debug, PartialEq, Eq, PartialOrd, Clone, Copy, Structural)]
pub enum Method {
    Options,
    Get,
    Head,
    Post,
    Put,
    Delete,
    Trace,
    Connect,
    Unknown,
}

/// The method that a request-line token names: an exact, case-sensitive match.
pub open spec fn method_of(t: Seq<u8>) -> Method {
    if t == "OPTIONS".spec_bytes() {
        Method::Options
    } else if t == "GET".spec_bytes() {
        Method::Get
    } else if t == "HEAD".spec_bytes() {
        Method::Head
    } else if t == "POST".spec_bytes() {
        Method::Post
    } else if t == "PUT".spec_bytes() {
        Method::Put
    } else if t == "DELETE".spec_bytes() {
        Method::Delete
    } else if t == "TRACE".spec_bytes() {
        Method::Trace
    } else if t == "CONNECT".spec_bytes() {
        Method::Connect
    } else {
        Method::Unknown
    }
}

impl Method {
    /// The method named by a request-line token; never fails.
    pub fn from_token(t: &[u8]) -> (m: Method)
        ensures
            m == method_of(t@),
    {
        if bytes_eq(t, "OPTIONS".as_bytes()) {
            Method::Options
        } else if bytes_eq(t, "GET".as_bytes()) {
            Method::Get
        } else if bytes_eq(t, "HEAD".as_bytes()) {
            Method::Head
        } else if bytes_eq(t, "POST".as_bytes()) {
            Method::Post
        } else if bytes_eq(t, "PUT".as_bytes()) {
            Method::Put
        } else if bytes_eq(t, "DELETE".as_bytes()) {
            Method::Delete
        } else if bytes_eq(t, "TRACE".as_bytes()) {
            Method::Trace
        } else if bytes_eq(t, "CONNECT".as_bytes()) {
            Method::Connect
        } else {
            Method::Unknown
        }
    }
}

impl<'a> From<&'a str> for Method {
    fn from(value: &'a str) -> (m: Method) {
        Method::from_token(value.as_bytes())
    }
}

impl<'a> vstd::std_specs::convert::FromSpecImpl<&'a str> for Method {
    open spec fn obeys_from_spec() -> bool {
        true
    }

    open spec fn from_spec(v: &'a str) -> Method {
        method_of(v.spec_bytes())
    }
}

/// A request as the parser produced it.
#[derive(Clone, Debug)]
pub struct Request {
    pub method: Method,
    /// The request target, query string included, exactly as received.
    pub path: String,
    pub version: String,
    /// Each header line as received, without its terminator, in order.
    pub headers: Vec<String>,
    pub body: String,
}

/// What a request holds, as mathematical values.
pub struct RequestView {
    pub method: Method,
    pub path: Seq<char>,
    pub version: Seq<char>,
    pub headers: Seq<Seq<char>>,
    pub body: Seq<char>,
}

impl View for Request {
    type V = RequestView;

    open spec fn view(&self) -> RequestView {
        RequestView {
            method: self.method,
            path: self.path@,
            version: self.version@,
            headers: self.headers@.map_values(|h: String| h@),
            body: self.body@,
        }
    }
}

/// Why a request could not be read.
#[derive(Debug, PartialEq, Eq, Clone, Copy, Structural)]
pub enum ParseError {
    /// The input ended before the request line, or inside the body.
    ConnectionClosedEarly,
    /// The request line is not three tokens separated by single spaces.
    MalformedRequestLine,
    /// The path or the version is not valid UTF-8.
    InvalidHeadEncoding,
    /// The declared body is longer than `MAX_BODY` bytes.
    BodyTooLarge,
    /// The body is not valid UTF-8.
    InvalidBodyEncoding,
}

/// The longest body, in bytes, that the parser accepts.
pub const MAX_BODY: usize = 4096;

/// The first line of `s`, without its terminator.
pub open spec fn first_line(s: Seq<u8>) -> Seq<u8> {
    s.subrange(0, line_end(s) as int)
}

/// What follows the first line of `s` and its terminator.
pub open spec fn after_first_line(s: Seq<u8>) -> Seq<u8> {
    if line_end(s) < s.len() {
        s.subrange(line_end(s) + 2 as int, s.len() as int)
    } else {
        seq![]
    }
}

/// The index of the first space of a request line, and of the second.
pub open spec fn first_space(line: Seq<u8>) -> nat {
    find_from(line, 32, 0)
}

pub open spec fn second_space(line: Seq<u8>) -> nat {
    find_from(line, 32, first_space(line) + 1)
}

/// Whether the line has exactly two spaces, so that it splits into three tokens.
pub open spec fn three_tokens(line: Seq<u8>) -> bool {
    &&& first_space(line) < line.len()
    &&& second_space(line) < line.len()
    &&& find_from(line, 32, second_space(line) + 1) == line.len()
}

/// The three tokens of a request line: method, path and version.
pub open spec fn token(line: Seq<u8>, k: int) -> Seq<u8> {
    if k == 0 {
        line.subrange(0, first_space(line) as int)
    } else if k == 1 {
        line.subrange(first_space(line) + 1 as int, second_space(line) as int)
    } else {
        line.subrange(second_space(line) + 1 as int, line.len() as int)
    }
}

/// The header lines at the start of `s`, up to a blank line, a line that is
/// not valid UTF-8, or the end of the input; and what follows the blank line
/// where there is one. Scanning stops quietly at a line that does not decode,
/// as at the end of the input.
pub open spec fn scan_headers(s: Seq<u8>) -> (Seq<Seq<u8>>, Option<Seq<u8>>)
    decreases s.len(),
    via scan_headers_decreases
{
    if s.len() == 0 {
        (seq![], None)
    } else if line_end(s) == 0 {
        (seq![], Some(s.subrange(2, s.len() as int)))
    } else if !valid_utf8(first_line(s)) {
        (seq![], None)
    } else if line_end(s) == s.len() {
        (seq![s], None)
    } else {
        let r = scan_headers(after_first_line(s));
        (seq![first_line(s)] + r.0, r.1)
    }
}

#[via_fn]
proof fn scan_headers_decreases(s: Seq<u8>) {
    lemma_line_end(s);
}

/// The value of a `Content-Length` header line: the line splits at its first
/// colon, the trimmed key is `Content-Length`, and the trimmed value reads as
/// a number. `None` for any other line, or a value that does not read.
pub open spec fn content_length_value(line: Seq<u8>) -> Option<nat> {
    let c = find_from(line, 58, 0);
    if c < line.len() && trim(line.subrange(0, c as int)) == "Content-Length".spec_bytes() {
        parse_usize(trim(line.subrange(c + 1 as int, line.len() as int)))
    } else {
        None
    }
}

/// The body length that a sequence of header lines declares: the value of the
/// last `Content-Length` line whose value reads, else zero.
pub open spec fn declared_length(lines: Seq<Seq<u8>>) -> nat
    decreases lines.len(),
{
    if lines.len() == 0 {
        0
    } else {
        match content_length_value(lines.last()) {
            Some(v) => v,
            None => declared_length(lines.drop_last()),
        }
    }
}

/// The body that follows the head: empty where the input ended before the
/// blank line or nothing was declared; else exactly the declared bytes.
pub open spec fn body_bytes(lines: Seq<Seq<u8>>, tail: Option<Seq<u8>>) -> Result<Seq<u8>, ParseError> {
    let n = declared_length(lines);
    match tail {
        None => Ok(seq![]),
        Some(t) => if n == 0 {
            Ok(seq![])
        } else if n > MAX_BODY {
            Err(ParseError::BodyTooLarge)
        } else if t.len() < n {
            Err(ParseError::ConnectionClosedEarly)
        } else {
            Ok(t.subrange(0, n as int))
        },
    }
}

/// What parsing `s` gives.
pub open spec fn parse_spec(s: Seq<u8>) -> Result<RequestView, ParseError> {
    let line = first_line(s);
    let (lines, tail) = scan_headers(after_first_line(s));
    if s.len() == 0 {
        Err(ParseError::ConnectionClosedEarly)
    } else if !three_tokens(line) {
        Err(ParseError::MalformedRequestLine)
    } else if !valid_utf8(token(line, 1)) || !valid_utf8(token(line, 2)) {
        Err(ParseError::InvalidHeadEncoding)
    } else {
        match body_bytes(lines, tail) {
            Err(e) => Err(e),
            Ok(b) => if !valid_utf8(b) {
                Err(ParseError::InvalidBodyEncoding)
            } else {
                Ok(
                    RequestView {
                        method: method_of(token(line, 0)),
                        path: decode_utf8(token(line, 1)),
                        version: decode_utf8(token(line, 2)),
                        headers: lines.map_values(|l: Seq<u8>| decode_utf8(l)),
                        body: decode_utf8(b),
                    },
                )
            },
        }
    }
}

pub proof fn lemma_line_end(s: Seq<u8>)
    ensures
        line_end(s) <= s.len(),
        line_end(s) < s.len() ==> crlf_at(s, line_end(s) as int),
        forall|j: int| 0 <= j < line_end(s) ==> !crlf_at(s, j),
{
    lemma_line_end_from(s, 0);
}

/// Reads the value of a `Content-Length` header line, as
/// `content_length_value` describes.
pub fn content_length_of(line: &[u8]) -> (r: Option<usize>)
    ensures
        r matches Some(v) ==> content_length_value(line@) == Some(v as nat),
        r is None ==> content_length_value(line@) is None,
{
    let c = find_byte(line, 58, 0);
    proof {
        lemma_find_from(line@, 58, 0);
    }
    if c < line.len() && bytes_eq(trim_bytes(slice_subrange(line, 0, c)), "Content-Length".as_bytes()) {
        parse_decimal(trim_bytes(slice_subrange(line, c + 1, line.len())))
    } else {
        None
    }
}

/// The part of `s` after `i`, or nothing where `has` is false.
pub open spec fn tail_from(s: Seq<u8>, has: bool, i: int) -> Option<Seq<u8>> {
    if has {
        Some(s.subrange(i, s.len() as int))
    } else {
        None
    }
}

/// The header lines of a request, as the parser keeps them.
struct ScannedHead {
    headers: Vec<String>,
    length: usize,
    tail: Option<usize>,
}

/// Reads the header lines at the start of `rest`, as `scan_headers`
/// describes: the lines decoded, the body length they declare, and where the
/// bytes after the blank line start.
fn scan_head(rest: &[u8]) -> (r: ScannedHead)
    ensures
        r.headers@.len() == scan_headers(rest@).0.len(),
        forall|i: int|
            0 <= i < r.headers@.len() ==> (#[trigger] r.headers@[i])@ == decode_utf8(
                scan_headers(rest@).0[i],
            ),
        r.length == declared_length(scan_headers(rest@).0),
        r.tail matches Some(t) ==> t <= rest@.len(),
        scan_headers(rest@).1 == tail_from(rest@, r.tail is Some, r.tail.unwrap_or(0) as int),
{
    let ghost full = scan_headers(rest@);
    let mut headers: Vec<String> = Vec::new();
    let ghost mut lines: Seq<Seq<u8>> = seq![];
    let mut length: usize = 0;
    let mut pos: usize = 0;
    let mut done = false;
    let mut has_tail = false;
    let mut tail_start: usize = 0;
    assert(rest@.subrange(0, rest@.len() as int) =~= rest@);
    assert(seq![] + full.0 =~= full.0);
    while !done
        invariant
            full == scan_headers(rest@),
            pos <= rest@.len(),
            !done ==> !has_tail,
            tail_start <= rest@.len(),
            done ==> full == (lines, tail_from(rest@, has_tail, tail_start as int)),
            !done ==> full == (
                lines + scan_headers(rest@.subrange(pos as int, rest@.len() as int)).0,
                scan_headers(rest@.subrange(pos as int, rest@.len() as int)).1,
            ),
            length == declared_length(lines),
            headers@.len() == lines.len(),
            forall|i: int|
                0 <= i < lines.len() ==> valid_utf8(#[trigger] lines[i])
                    && headers@[i]@ == decode_utf8(lines[i]),
        decreases rest@.len() - pos + (if done {
            0int
        } else {
            1int
        }),
    {
        let sub = slice_subrange(rest, pos, rest.len());
        proof {
            lemma_line_end(sub@);
        }
        if sub.len() == 0 {
            done = true;
            assert(scan_headers(sub@) == (Seq::<Seq<u8>>::empty(), Option::<Seq<u8>>::None));
            assert(lines + seq![] =~= lines);
            assert(full.0 =~= lines);
        } else {
            let e = find_line_end(sub);
            if e == 0 {
                done = true;
                has_tail = true;
                tail_start = pos + 2;
                assert(sub@.subrange(2, sub@.len() as int) =~= rest@.subrange(
                    tail_start as int,
                    rest@.len() as int,
                ));
                assert(lines + seq![] =~= lines);
                assert(full.0 =~= lines);
                assert(full.1 == tail_from(rest@, has_tail, tail_start as int));
            } else {
                let l = slice_subrange(sub, 0, e);
                let ghost later = scan_headers(after_first_line(sub@));
                assert(l@ == first_line(sub@));
                match utf8_string(slice_to_vec(l)) {
                    Some(h) => {
                        headers.push(h);
                    },
                    None => {
                        assert(lines + seq![] =~= lines);
                        return ScannedHead {
                            headers,
                            length,
                            tail: None,
                        };
                    },
                }
                match content_length_of(l) {
                    Some(v) => {
                        length = v;
                    },
                    None => {},
                }
                let ghost old_lines = lines;
                proof {
                    lines = lines.push(l@);
                    assert(lines.drop_last() =~= old_lines);
                }
                if e == sub.len() {
                    done = true;
                    assert(sub@ =~= l@);
                    assert(full.0 =~= lines);
                    assert(full.1 == tail_from(rest@, has_tail, tail_start as int));
                } else {
                    assert(after_first_line(sub@) =~= rest@.subrange(
                        pos + e + 2,
                        rest@.len() as int,
                    ));
                    assert(full.0 =~= lines + later.0);
                    pos = pos + e + 2;
                }
            }
        }
    }
    ScannedHead {
        headers,
        length,
        tail: if has_tail {
            Some(tail_start)
        } else {
            None
        },
    }
}

impl Request {
    /// Parses one request from the bytes read from a connection.
    ///
    /// The request line splits at single spaces into exactly three tokens;
    /// header lines are kept verbatim up to the first blank line; the body is
    /// the number of bytes that the last readable `Content-Length` line
    /// declares, at most `MAX_BODY`. Bytes after the body are ignored. Input
    /// that ends before the blank line gives the headers read so far and an
    /// empty body.
    pub fn parse(input: &[u8]) -> (r: Result<Request, ParseError>)
        ensures
            r matches Ok(q) ==> parse_spec(input@) == Ok::<RequestView, ParseError>(q@),
            r matches Err(e) ==> parse_spec(input@) == Err::<RequestView, ParseError>(e),
    {
        if input.len() == 0 {
            return Err(ParseError::ConnectionClosedEarly);
        }
        let e = find_line_end(input);
        proof {
            lemma_line_end(input@);
        }
        let line = slice_subrange(input, 0, e);
        let rest = if e < input.len() {
            slice_subrange(input, e + 2, input.len())
        } else {
            slice_subrange(input, 0, 0)
        };
        assert(rest@ =~= after_first_line(input@));
        let s1 = find_byte(line, 32, 0);
        proof {
            lemma_find_from(line@, 32, 0);
        }
        if s1 >= line.len() {
            return Err(ParseError::MalformedRequestLine);
        }
        let s2 = find_byte(line, 32, s1 + 1);
        proof {
            lemma_find_from(line@, 32, (s1 + 1) as nat);
        }
        if s2 >= line.len() {
            return Err(ParseError::MalformedRequestLine);
        }
        let s3 = find_byte(line, 32, s2 + 1);
        proof {
            lemma_find_from(line@, 32, (s2 + 1) as nat);
        }
        if s3 < line.len() {
            return Err(ParseError::MalformedRequestLine);
        }
        assert(line@ == first_line(input@));
        assert(three_tokens(line@));
        let method = Method::from_token(slice_subrange(line, 0, s1));
        let path = match utf8_string(slice_to_vec(slice_subrange(line, s1 + 1, s2))) {
            Some(p) => p,
            None => {
                return Err(ParseError::InvalidHeadEncoding);
            },
        };
        let version = match utf8_string(slice_to_vec(slice_subrange(line, s2 + 1, line.len()))) {
            Some(v) => v,
            None => {
                return Err(ParseError::InvalidHeadEncoding);
            },
        };
        let head = scan_head(rest);
        let ghost full = scan_headers(rest@);
        let headers = head.headers;
        let length = head.length;
        let (has_tail, tail_start) = match head.tail {
            Some(t) => (true, t),
            None => (false, 0),
        };
        let body = if !has_tail || length == 0 {
            String::new()
        } else if length > MAX_BODY {
            return Err(ParseError::BodyTooLarge);
        } else {
            let t = slice_subrange(rest, tail_start, rest.len());
            if t.len() < length {
                return Err(ParseError::ConnectionClosedEarly);
            }
            match utf8_string(slice_to_vec(slice_subrange(t, 0, length))) {
                Some(b) => b,
                None => {
                    return Err(ParseError::InvalidBodyEncoding);
                },
            }
        };
        let req = Request { method, path, version, headers, body };
        assert(req@.headers =~= full.0.map_values(|l: Seq<u8>| decode_utf8(l)));
        Ok(req)
    }
}

/// Whether the bytes read so far from a connection hold a whole head: a
/// request line, and header lines up to a blank line.
pub open spec fn head_complete_spec(s: Seq<u8>) -> bool {
    s.len() > 0 && scan_headers(after_first_line(s)).1 is Some
}

/// How many body bytes a reader has to take after a whole head: the length
/// that the header lines declare, where it is at most `MAX_BODY`; else none.
pub open spec fn body_wanted_spec(s: Seq<u8>) -> nat {
    let n = declared_length(scan_headers(after_first_line(s)).0);
    if head_complete_spec(s) && n <= MAX_BODY {
        n
    } else {
        0
    }
}

/// What follows the first line of `input`.
fn rest_after_first_line(input: &[u8]) -> (r: &[u8])
    ensures
        r@ == after_first_line(input@),
{
    let e = find_line_end(input);
    proof {
        lemma_line_end(input@);
    }
    let r = if e < input.len() {
        slice_subrange(input, e + 2, input.len())
    } else {
        slice_subrange(input, 0, 0)
    };
    assert(r@ =~= after_first_line(input@));
    r
}

/// Whether `input` holds a whole head, as `head_complete_spec` describes; a
/// reader that takes a connection line by line stops there.
pub fn head_complete(input: &[u8]) -> (r: bool)
    ensures
        r == head_complete_spec(input@),
{
    if input.len() == 0 {
        return false;
    }
    scan_head(rest_after_first_line(input)).tail.is_some()
}

/// How many body bytes to read after the head `input`, as
/// `body_wanted_spec` describes.
pub fn body_wanted(input: &[u8]) -> (n: usize)
    ensures
        n as nat == body_wanted_spec(input@),
{
    if input.len() == 0 {
        return 0;
    }
    let head = scan_head(rest_after_first_line(input));
    if head.tail.is_some() && head.length <= MAX_BODY {
        head.length
    } else {
        0
    }
}

/// Whether `s` holds no line terminator.
pub open spec fn no_crlf(s: Seq<u8>) -> bool {
    forall|j: int| 0 <= j < s.len() ==> !crlf_at(s, j)
}

/// Whether `s` can stand as a request-line token: no space, no terminator.
pub open spec fn plain_token(s: Seq<u8>) -> bool {
    no_crlf(s) && forall|j: int| 0 <= j < s.len() ==> s[j] != 32
}

/// Header lines, each followed by the line terminator.
pub open spec fn header_block(hs: Seq<Seq<u8>>) -> Seq<u8>
    decreases hs.len(),
{
    if hs.len() == 0 {
        seq![]
    } else {
        hs[0] + crlf() + header_block(hs.drop_first())
    }
}

/// A request on the wire: request line, header lines, blank line, body.
pub open spec fn request_bytes(
    m: Seq<u8>,
    path: Seq<u8>,
    version: Seq<u8>,
    headers: Seq<Seq<u8>>,
    body: Seq<u8>,
) -> Seq<u8> {
    m + seq![32u8] + path + seq![32u8] + version + crlf() + header_block(headers) + crlf() + body
}

proof fn lemma_line_end_of_line(line: Seq<u8>, rest: Seq<u8>)
    requires
        no_crlf(line),
    ensures
        line_end(line + crlf() + rest) == line.len(),
        first_line(line + crlf() + rest) == line,
        after_first_line(line + crlf() + rest) == rest,
{
    let s = line + crlf() + rest;
    lemma_line_end(s);
    assert(crlf_at(s, line.len() as int));
    if line_end(s) < line.len() {
        let j = line_end(s) as int;
        assert(crlf_at(s, j));
        if j + 1 < line.len() {
            assert(crlf_at(line, j));
        } else {
            assert(s[j + 1] == 13);
        }
    }
    assert(first_line(s) =~= line);
    assert(after_first_line(s) =~= rest);
}

proof fn lemma_find_at(s: Seq<u8>, b: u8, i: nat, k: nat)
    requires
        i <= k <= s.len(),
        k < s.len() ==> s[k as int] == b,
        forall|j: int| i <= j < k ==> s[j] != b,
    ensures
        find_from(s, b, i) == k,
{
    lemma_find_from(s, b, i);
    let f = find_from(s, b, i);
    if f < k {
        assert(s[f as int] == b);
    } else if f > k {
        assert(s[k as int] != b);
    }
}

proof fn lemma_scan_header_block(hs: Seq<Seq<u8>>, body: Seq<u8>)
    requires
        forall|i: int|
            0 <= i < hs.len() ==> (#[trigger] hs[i]).len() > 0 && no_crlf(hs[i]) && valid_utf8(hs[i]),
    ensures
        scan_headers(header_block(hs) + crlf() + body) == (hs, Some(body)),
    decreases hs.len(),
{
    let s = header_block(hs) + crlf() + body;
    if hs.len() == 0 {
        assert(s =~= seq![] + crlf() + body);
        lemma_line_end_of_line(seq![], body);
        assert(s.subrange(2, s.len() as int) =~= body);
        assert(hs =~= seq![]);
    } else {
        let rest = header_block(hs.drop_first()) + crlf() + body;
        assert(s =~= hs[0] + crlf() + rest);
        lemma_line_end_of_line(hs[0], rest);
        lemma_scan_header_block(hs.drop_first(), body);
        assert(seq![hs[0]] + hs.drop_first() =~= hs);
    }
}

/// Writing a request line of three plain tokens, header lines without
/// terminators inside them, a blank line and a body of the declared length,
/// then parsing those bytes, gives back the same method, path, version,
/// header lines in their order, and body.
pub proof fn lemma_parse_round_trip(
    m: Seq<u8>,
    path: Seq<u8>,
    version: Seq<u8>,
    headers: Seq<Seq<u8>>,
    body: Seq<u8>,
)
    requires
        plain_token(m),
        plain_token(path),
        plain_token(version),
        valid_utf8(path),
        valid_utf8(version),
        forall|i: int|
            0 <= i < headers.len() ==> (#[trigger] headers[i]).len() > 0 && no_crlf(headers[i])
                && valid_utf8(headers[i]),
        body.len() == declared_length(headers),
        body.len() <= MAX_BODY,
        valid_utf8(body),
    ensures
        parse_spec(request_bytes(m, path, version, headers, body)) == Ok::<RequestView, ParseError>(
            RequestView {
                method: method_of(m),
                path: decode_utf8(path),
                version: decode_utf8(version),
                headers: headers.map_values(|l: Seq<u8>| decode_utf8(l)),
                body: decode_utf8(body),
            },
        ),
{
    let line = m + seq![32u8] + path + seq![32u8] + version;
    let rest = header_block(headers) + crlf() + body;
    let s = request_bytes(m, path, version, headers, body);
    assert(s =~= line + crlf() + rest);
    assert(no_crlf(line)) by {
        assert forall|j: int| 0 <= j < line.len() implies !crlf_at(line, j) by {
            if j < m.len() {
                if j + 1 < m.len() {
                    assert(!crlf_at(m, j));
                }
            } else if j == m.len() {
            } else if j < m.len() + 1 + path.len() {
                if j + 1 < m.len() + 1 + path.len() {
                    assert(!crlf_at(path, j - m.len() - 1));
                }
            } else if j == m.len() + 1 + path.len() {
            } else {
                assert(!crlf_at(version, j - m.len() - 2 - path.len()));
            }
        }
    }
    lemma_line_end_of_line(line, rest);
    let a = m.len();
    let b = m.len() + 1 + path.len();
    assert forall|j: int| 0 <= j < a implies line[j] != 32 by {
        assert(line[j] == m[j]);
    }
    lemma_find_at(line, 32, 0, a);
    assert forall|j: int| a + 1 <= j < b implies line[j] != 32 by {
        assert(line[j] == path[j - a - 1]);
    }
    lemma_find_at(line, 32, a + 1, b);
    assert forall|j: int| b + 1 <= j < line.len() implies line[j] != 32 by {
        assert(line[j] == version[j - b - 1]);
    }
    lemma_find_at(line, 32, b + 1, line.len());
    assert(first_space(line) == a);
    assert(second_space(line) == b);
    assert(line.subrange(0, a as int) =~= m);
    assert(token(line, 0) =~= m);
    assert(token(line, 1) =~= path);
    assert(token(line, 2) =~= version);
    lemma_scan_header_block(headers, body);
    assert(body.subrange(0, body.len() as int) =~= body);
    if body.len() == 0 {
        assert(body =~= seq![]);
    }
}

} // verus!
