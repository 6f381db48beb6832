//! HTTP responses: status codes with their reason phrases, and the wire framing.
use vstd::prelude::*;
use vstd::string::*;
use vstd::utf8::*;

use crate::bytes::{crlf, lemma_crlf_literal, decimal, push_all, push_decimal};

verus! {

/// HTTP status codes, as defined under RFC 2616.
#[derive(Debug, PartialEq, Eq, PartialOrd, Clone, Copy, Structural)]
pub enum StatusCode {
    Continue,
    SwitchingProtocols,
    OK,
    Created,
    Accepted,
    NonAuthoritativeInformation,
    NoContent,
    ResetContent,
    PartialContent,
    MultipleChoices,
    MovedPermanently,
    Found,
    SeeOther,
    NotModified,
    UseProxy,
    TemporaryRedirect,
    BadRequest,
    Unauthorized,
    PaymentRequired,
    Forbidden,
    NotFound,
    MethodNotAllowed,
    NotAcceptable,
    ProxyAuthenticationRequired,
    RequestTimeout,
    Conflict,
    Gone,
    LengthRequired,
    PreconditionFailed,
    RequestEntityTooLarge,
    RequestUriTooLarge,
    UnsupportedMediaType,
    RequestedRangeNotSatisfiable,
    ExpectationFailed,
    InternalServerError,
    NotImplemented,
    BadGateway,
    ServiceUnavailable,
    GatewayTimeout,
    HttpVersionNotSupported,
}

/// The status-line text of each code: the number followed by its reason phrase.
pub open spec fn status_text(s: StatusCode) -> &'static str {
    match s {
        StatusCode::Continue => "100 Continue",
        StatusCode::SwitchingProtocols => "101 Switching Protocols",
        StatusCode::OK => "200 OK",
        StatusCode::Created => "201 Created",
        StatusCode::Accepted => "202 Accepted",
        StatusCode::NonAuthoritativeInformation => "203 Non-Authoritative Information",
        StatusCode::NoContent => "204 No Content",
        StatusCode::ResetContent => "205 Reset Content",
        StatusCode::PartialContent => "206 Partial Content",
        StatusCode::MultipleChoices => "300 Multiple Choices",
        StatusCode::MovedPermanently => "301 Moved Permanently",
        StatusCode::Found => "302 Found",
        StatusCode::SeeOther => "303 See Other",
        StatusCode::NotModified => "304 Not Modified",
        StatusCode::UseProxy => "305 Use Proxy",
        StatusCode::TemporaryRedirect => "307 Temporary Redirect",
        StatusCode::BadRequest => "400 Bad Request",
        StatusCode::Unauthorized => "401 Unauthorized",
        StatusCode::PaymentRequired => "402 Payment Required",
        StatusCode::Forbidden => "403 Forbidden",
        StatusCode::NotFound => "404 Not Found",
        StatusCode::MethodNotAllowed => "405 Method Not Allowed",
        StatusCode::NotAcceptable => "406 Not Acceptable",
        StatusCode::ProxyAuthenticationRequired => "407 Proxy Authentication Required",
        StatusCode::RequestTimeout => "408 Request Time-out",
        StatusCode::Conflict => "409 Conflict",
        StatusCode::Gone => "410 Gone",
        StatusCode::LengthRequired => "411 Length Required",
        StatusCode::PreconditionFailed => "412 Precondition Failed",
        StatusCode::RequestEntityTooLarge => "413 Request Entity Too Large",
        StatusCode::RequestUriTooLarge => "414 Request-URI Too Large",
        StatusCode::UnsupportedMediaType => "415 Unsupported Media Type",
        StatusCode::RequestedRangeNotSatisfiable => "416 Requested range not satisfiable",
        StatusCode::ExpectationFailed => "417 Expectation Failed",
        StatusCode::InternalServerError => "500 Internal Server Error",
        StatusCode::NotImplemented => "501 Not Implemented",
        StatusCode::BadGateway => "502 Bad Gateway",
        StatusCode::ServiceUnavailable => "503 Service Unavailable",
        StatusCode::GatewayTimeout => "504 Gateway Time-out",
        StatusCode::HttpVersionNotSupported => "505 HTTP Version not supported",
    }
}

impl StatusCode {
    /// The code and its reason phrase, as written on the status line.
    pub fn get_text(&self) -> (r: &'static str)
        ensures
            r == status_text(*self),
    {
        match self {
            StatusCode::Continue => "100 Continue",
            StatusCode::SwitchingProtocols => "101 Switching Protocols",
            StatusCode::OK => "200 OK",
            StatusCode::Created => "201 Created",
            StatusCode::Accepted => "202 Accepted",
            StatusCode::NonAuthoritativeInformation => "203 Non-Authoritative Information",
            StatusCode::NoContent => "204 No Content",
            StatusCode::ResetContent => "205 Reset Content",
            StatusCode::PartialContent => "206 Partial Content",
            StatusCode::MultipleChoices => "300 Multiple Choices",
            StatusCode::MovedPermanently => "301 Moved Permanently",
            StatusCode::Found => "302 Found",
            StatusCode::SeeOther => "303 See Other",
            StatusCode::NotModified => "304 Not Modified",
            StatusCode::UseProxy => "305 Use Proxy",
            StatusCode::TemporaryRedirect => "307 Temporary Redirect",
            StatusCode::BadRequest => "400 Bad Request",
            StatusCode::Unauthorized => "401 Unauthorized",
            StatusCode::PaymentRequired => "402 Payment Required",
            StatusCode::Forbidden => "403 Forbidden",
            StatusCode::NotFound => "404 Not Found",
            StatusCode::MethodNotAllowed => "405 Method Not Allowed",
            StatusCode::NotAcceptable => "406 Not Acceptable",
            StatusCode::ProxyAuthenticationRequired => "407 Proxy Authentication Required",
            StatusCode::RequestTimeout => "408 Request Time-out",
            StatusCode::Conflict => "409 Conflict",
            StatusCode::Gone => "410 Gone",
            StatusCode::LengthRequired => "411 Length Required",
            StatusCode::PreconditionFailed => "412 Precondition Failed",
            StatusCode::RequestEntityTooLarge => "413 Request Entity Too Large",
            StatusCode::RequestUriTooLarge => "414 Request-URI Too Large",
            StatusCode::UnsupportedMediaType => "415 Unsupported Media Type",
            StatusCode::RequestedRangeNotSatisfiable => "416 Requested range not satisfiable",
            StatusCode::ExpectationFailed => "417 Expectation Failed",
            StatusCode::InternalServerError => "500 Internal Server Error",
            StatusCode::NotImplemented => "501 Not Implemented",
            StatusCode::BadGateway => "502 Bad Gateway",
            StatusCode::ServiceUnavailable => "503 Service Unavailable",
            StatusCode::GatewayTimeout => "504 Gateway Time-out",
            StatusCode::HttpVersionNotSupported => "505 HTTP Version not supported",
        }
    }
}

/// An HTTP response. The `Content-Length` header is derived from `body` when
/// the response is written and is not to be put in `headers`.
#[derive(Clone, Debug)]
pub struct Response {
    pub status: StatusCode,
    pub body: String,
    pub headers: Vec<String>,
}

/// What a response holds, as mathematical values.
pub struct ResponseView {
    pub status: StatusCode,
    pub body: Seq<char>,
    pub headers: Seq<Seq<char>>,
}

impl View for Response {
    type V = ResponseView;

    open spec fn view(&self) -> ResponseView {
        ResponseView {
            status: self.status,
            body: self.body@,
            headers: self.headers@.map_values(|h: String| h@),
        }
    }
}

/// Each header line in UTF-8, followed by the line terminator, in order.
pub open spec fn header_lines(hs: Seq<Seq<char>>) -> Seq<u8>
    decreases hs.len(),
{
    if hs.len() == 0 {
        seq![]
    } else {
        header_lines(hs.drop_last()) + encode_utf8(hs.last()) + crlf()
    }
}

impl ResponseView {
    /// The number of bytes of the body on the wire.
    pub open spec fn content_length(self) -> nat {
        encode_utf8(self.body).len()
    }

    /// Everything before the blank line: the status line, the
    /// `Content-Length` line and the caller's header lines.
    pub open spec fn head(self) -> Seq<u8> {
        "HTTP/1.1 ".spec_bytes() + status_text(self.status).spec_bytes() + crlf()
            + "Content-Length: ".spec_bytes() + decimal(self.content_length()) + crlf()
            + header_lines(self.headers)
    }

    /// The response on the wire: the head, a blank line, then the body.
    pub open spec fn wire(self) -> Seq<u8> {
        self.head() + crlf() + encode_utf8(self.body)
    }
}

impl Default for Response {
    fn default() -> (r: Response)
        ensures
            r@.status == StatusCode::OK,
            r@.body.len() == 0,
            r@.headers.len() == 0,
    {
        Response { status: StatusCode::OK, body: String::new(), headers: Vec::new() }
    }
}

impl Response {
    /// Serializes the response to the bytes that go on the wire.
    pub fn to_bytes(&self) -> (r: Vec<u8>)
        ensures
            r@ == self@.wire(),
    {
        let mut out: Vec<u8> = Vec::new();
        push_all(&mut out, "HTTP/1.1 ".as_bytes());
        push_all(&mut out, self.status.get_text().as_bytes());
        push_all(&mut out, "\r\n".as_bytes());
        push_all(&mut out, "Content-Length: ".as_bytes());
        let n = self.body.as_str().as_bytes().len();
        assert(n as nat == self@.content_length());
        push_decimal(&mut out, n);
        push_all(&mut out, "\r\n".as_bytes());
        proof {
            lemma_crlf_literal();
        }
        let ghost start = out@;
        let mut i: usize = 0;
        while i < self.headers.len()
            invariant
                i <= self.headers@.len(),
                out@ == start + header_lines(self@.headers.take(i as int)),
            decreases self.headers@.len() - i,
        {
            proof {
                lemma_crlf_literal();
            }
            let ghost before = out@;
            push_all(&mut out, self.headers[i].as_str().as_bytes());
            push_all(&mut out, "\r\n".as_bytes());
            let ghost hs = self@.headers.take(i + 1 as int);
            assert(hs.drop_last() =~= self@.headers.take(i as int));
            assert(hs.last() == self.headers@[i as int]@);
            assert(header_lines(hs) == header_lines(self@.headers.take(i as int)) + encode_utf8(
                self.headers@[i as int]@,
            ) + crlf());
            assert(out@ =~= before + encode_utf8(self.headers@[i as int]@) + crlf());
            assert(out@ =~= start + header_lines(hs));
            i += 1;
        }
        assert(self@.headers.take(i as int) == self@.headers);
        push_all(&mut out, "\r\n".as_bytes());
        push_all(&mut out, self.body.as_str().as_bytes());
        assert(out@ =~= self@.wire());
        out
    }
}

/// A written response always carries `Content-Length: L`, where `L` is the
/// number of body bytes, and exactly those `L` bytes follow the blank line.
pub proof fn lemma_content_length_framing(r: ResponseView)
    ensures
        ({
            let w = r.wire();
            let s = "HTTP/1.1 ".spec_bytes() + status_text(r.status).spec_bytes() + crlf();
            let cl = "Content-Length: ".spec_bytes() + decimal(r.content_length()) + crlf();
            let h = r.head().len() as int;
            &&& w.subrange(s.len() as int, (s.len() + cl.len()) as int) == cl
            &&& w.subrange(h, h + 2) == crlf()
            &&& w.subrange(h + 2, w.len() as int) == encode_utf8(r.body)
            &&& w.len() - (h + 2) == r.content_length()
        }),
{
    let w = r.wire();
    let s = "HTTP/1.1 ".spec_bytes() + status_text(r.status).spec_bytes() + crlf();
    let cl = "Content-Length: ".spec_bytes() + decimal(r.content_length()) + crlf();
    let h = r.head().len() as int;
    assert(r.head() =~= s + cl + header_lines(r.headers));
    assert(w.subrange(s.len() as int, (s.len() + cl.len()) as int) =~= cl);
    assert(w.subrange(h, h + 2) =~= crlf());
    assert(w.subrange(h + 2, w.len() as int) =~= encode_utf8(r.body));
}

/// Writing a response never depends on anything but the response: two
/// writings of the same response give the same bytes.
pub proof fn lemma_serialization_repeats(r: ResponseView, first: Seq<u8>, second: Seq<u8>)
    requires
        first == r.wire(),
        second == r.wire(),
    ensures
        first == second,
{
}

/// Whether a blank line starts at `j` in `w`: a terminator followed at once
/// by another.
pub open spec fn blank_at(w: Seq<u8>, j: int) -> bool {
    0 <= j && j + 3 < w.len() && w[j] == 13 && w[j + 1] == 10 && w[j + 2] == 13 && w[j + 3] == 10
}

/// Whether no character of `cs` is a carriage return.
pub open spec fn no_cr(cs: Seq<char>) -> bool {
    forall|i: int| 0 <= i < cs.len() ==> cs[i] != '\r'
}

/// Whether every carriage return in `x` starts a terminator, and no
/// terminator is followed at once by another carriage return inside `x`.
spec fn lines_only(x: Seq<u8>) -> bool {
    forall|j: int|
        0 <= j < x.len() && #[trigger] x[j] == 13 ==> j + 1 < x.len() && x[j + 1] == 10 && (j + 2
            < x.len() ==> x[j + 2] != 13)
}

proof fn lemma_scalar_no_cr(c: char)
    requires
        c != '\r',
    ensures
        encode_scalar(c as u32).len() >= 1,
        forall|j: int|
            0 <= j < encode_scalar(c as u32).len() ==> #[trigger] encode_scalar(c as u32)[j] != 13,
{
    let v = c as u32;
    char_is_scalar(c);
    if v == 13 {
        char_u32_cast(c, v);
        assert((13u32 as char) == '\r');
    }
    if v <= 0x7F {
        assert((v & 0x7F) as u8 != 13) by (bit_vector)
            requires
                v <= 0x7F,
                v != 13,
        ;
    }
    assert((0xC0 | ((v >> 6) & 0x1F) as u8) as u8 != 13) by (bit_vector);
    assert((0xE0 | ((v >> 12) & 0x0F) as u8) as u8 != 13) by (bit_vector);
    assert((0xF0 | ((v >> 18) & 0x7) as u8) as u8 != 13) by (bit_vector);
    assert((0x80 | (v & 0x3F) as u8) as u8 != 13) by (bit_vector);
    assert((0x80 | ((v >> 6) & 0x3F) as u8) as u8 != 13) by (bit_vector);
    assert((0x80 | ((v >> 12) & 0x3F) as u8) as u8 != 13) by (bit_vector);
}

proof fn lemma_encode_no_cr(cs: Seq<char>)
    requires
        no_cr(cs),
    ensures
        encode_utf8(cs).len() >= cs.len(),
        forall|j: int| 0 <= j < encode_utf8(cs).len() ==> #[trigger] encode_utf8(cs)[j] != 13,
    decreases cs.len(),
{
    if cs.len() > 0 {
        lemma_scalar_no_cr(cs[0]);
        lemma_encode_no_cr(cs.drop_first());
    }
}

proof fn lemma_decimal_digits(n: nat)
    ensures
        decimal(n).len() >= 1,
        forall|j: int| 0 <= j < decimal(n).len() ==> 48 <= #[trigger] decimal(n)[j] <= 57,
    decreases n,
{
    if n >= 10 {
        lemma_decimal_digits(n / 10);
    }
}

proof fn lemma_status_no_cr(s: StatusCode)
    ensures
        no_cr(status_text(s)@),
{
    match s {
        StatusCode::Continue => {
            reveal_strlit("100 Continue");
        },
        StatusCode::SwitchingProtocols => {
            reveal_strlit("101 Switching Protocols");
        },
        StatusCode::OK => {
            reveal_strlit("200 OK");
        },
        StatusCode::Created => {
            reveal_strlit("201 Created");
        },
        StatusCode::Accepted => {
            reveal_strlit("202 Accepted");
        },
        StatusCode::NonAuthoritativeInformation => {
            reveal_strlit("203 Non-Authoritative Information");
        },
        StatusCode::NoContent => {
            reveal_strlit("204 No Content");
        },
        StatusCode::ResetContent => {
            reveal_strlit("205 Reset Content");
        },
        StatusCode::PartialContent => {
            reveal_strlit("206 Partial Content");
        },
        StatusCode::MultipleChoices => {
            reveal_strlit("300 Multiple Choices");
        },
        StatusCode::MovedPermanently => {
            reveal_strlit("301 Moved Permanently");
        },
        StatusCode::Found => {
            reveal_strlit("302 Found");
        },
        StatusCode::SeeOther => {
            reveal_strlit("303 See Other");
        },
        StatusCode::NotModified => {
            reveal_strlit("304 Not Modified");
        },
        StatusCode::UseProxy => {
            reveal_strlit("305 Use Proxy");
        },
        StatusCode::TemporaryRedirect => {
            reveal_strlit("307 Temporary Redirect");
        },
        StatusCode::BadRequest => {
            reveal_strlit("400 Bad Request");
        },
        StatusCode::Unauthorized => {
            reveal_strlit("401 Unauthorized");
        },
        StatusCode::PaymentRequired => {
            reveal_strlit("402 Payment Required");
        },
        StatusCode::Forbidden => {
            reveal_strlit("403 Forbidden");
        },
        StatusCode::NotFound => {
            reveal_strlit("404 Not Found");
        },
        StatusCode::MethodNotAllowed => {
            reveal_strlit("405 Method Not Allowed");
        },
        StatusCode::NotAcceptable => {
            reveal_strlit("406 Not Acceptable");
        },
        StatusCode::ProxyAuthenticationRequired => {
            reveal_strlit("407 Proxy Authentication Required");
        },
        StatusCode::RequestTimeout => {
            reveal_strlit("408 Request Time-out");
        },
        StatusCode::Conflict => {
            reveal_strlit("409 Conflict");
        },
        StatusCode::Gone => {
            reveal_strlit("410 Gone");
        },
        StatusCode::LengthRequired => {
            reveal_strlit("411 Length Required");
        },
        StatusCode::PreconditionFailed => {
            reveal_strlit("412 Precondition Failed");
        },
        StatusCode::RequestEntityTooLarge => {
            reveal_strlit("413 Request Entity Too Large");
        },
        StatusCode::RequestUriTooLarge => {
            reveal_strlit("414 Request-URI Too Large");
        },
        StatusCode::UnsupportedMediaType => {
            reveal_strlit("415 Unsupported Media Type");
        },
        StatusCode::RequestedRangeNotSatisfiable => {
            reveal_strlit("416 Requested range not satisfiable");
        },
        StatusCode::ExpectationFailed => {
            reveal_strlit("417 Expectation Failed");
        },
        StatusCode::InternalServerError => {
            reveal_strlit("500 Internal Server Error");
        },
        StatusCode::NotImplemented => {
            reveal_strlit("501 Not Implemented");
        },
        StatusCode::BadGateway => {
            reveal_strlit("502 Bad Gateway");
        },
        StatusCode::ServiceUnavailable => {
            reveal_strlit("503 Service Unavailable");
        },
        StatusCode::GatewayTimeout => {
            reveal_strlit("504 Gateway Time-out");
        },
        StatusCode::HttpVersionNotSupported => {
            reveal_strlit("505 HTTP Version not supported");
        },
    }
}

proof fn lemma_lines_append(x: Seq<u8>, l: Seq<u8>)
    requires
        lines_only(x),
        l.len() > 0,
        forall|j: int| 0 <= j < l.len() ==> #[trigger] l[j] != 13,
    ensures
        lines_only(x + l + crlf()),
{
    let z = x + l + crlf();
    assert forall|j: int| 0 <= j < z.len() && #[trigger] z[j] == 13 implies j + 1 < z.len() && z[j
        + 1] == 10 && (j + 2 < z.len() ==> z[j + 2] != 13) by {
        if j < x.len() {
            assert(x[j] == 13);
            if j + 2 == x.len() {
                assert(z[j + 2] == l[0]);
            } else if j + 2 < x.len() {
                assert(z[j + 2] == x[j + 2]);
            }
        } else if j < x.len() + l.len() {
            assert(z[j] == l[j - x.len()]);
        }
    }
}

proof fn lemma_lines_headers(p: Seq<u8>, hs: Seq<Seq<char>>)
    requires
        lines_only(p),
        forall|k: int| 0 <= k < hs.len() ==> (#[trigger] hs[k]).len() > 0 && no_cr(hs[k]),
    ensures
        lines_only(p + header_lines(hs)),
    decreases hs.len(),
{
    if hs.len() > 0 {
        let init = hs.drop_last();
        lemma_lines_headers(p, init);
        lemma_encode_no_cr(hs.last());
        lemma_lines_append(p + header_lines(init), encode_utf8(hs.last()));
        assert(p + header_lines(hs) =~= p + header_lines(init) + encode_utf8(hs.last()) + crlf());
    }
}

proof fn lemma_lines_headers_end(p: Seq<u8>, hs: Seq<Seq<char>>)
    requires
        p.len() >= 2,
        p.subrange(p.len() - 2, p.len() as int) == crlf(),
    ensures
        ({
            let x = p + header_lines(hs);
            x.len() >= 2 && x.subrange(x.len() - 2, x.len() as int) == crlf()
        }),
{
    let x = p + header_lines(hs);
    if hs.len() == 0 {
        assert(x =~= p);
    } else {
        assert(x =~= p + header_lines(hs.drop_last()) + encode_utf8(hs.last()) + crlf());
        assert(x.subrange(x.len() - 2, x.len() as int) =~= crlf());
    }
}

/// Where no header line is empty or holds a carriage return, the first blank
/// line of a written response ends its head, and what follows that blank
/// line is exactly the body: `Content-Length` of its bytes.
pub proof fn lemma_body_after_first_blank_line(r: ResponseView)
    requires
        forall|k: int| 0 <= k < r.headers.len() ==> (#[trigger] r.headers[k]).len() > 0 && no_cr(
            r.headers[k],
        ),
    ensures
        ({
            let w = r.wire();
            let i = r.head().len() - 2;
            &&& blank_at(w, i)
            &&& forall|j: int| 0 <= j < i ==> !blank_at(w, j)
            &&& w.subrange(i + 4, w.len() as int) == encode_utf8(r.body)
            &&& w.len() == i + 4 + r.content_length()
        }),
{
    let w = r.wire();
    let a = "HTTP/1.1 ".spec_bytes() + status_text(r.status).spec_bytes();
    let b = "Content-Length: ".spec_bytes() + decimal(r.content_length());
    reveal_strlit("HTTP/1.1 ");
    reveal_strlit("Content-Length: ");
    lemma_encode_no_cr("HTTP/1.1 "@);
    lemma_status_no_cr(r.status);
    lemma_encode_no_cr(status_text(r.status)@);
    lemma_encode_no_cr("Content-Length: "@);
    lemma_decimal_digits(r.content_length());
    let e: Seq<u8> = seq![];
    assert(lines_only(e));
    lemma_lines_append(e, a);
    lemma_lines_append(e + a + crlf(), b);
    let p = e + a + crlf() + b + crlf();
    assert(p.subrange(p.len() - 2, p.len() as int) =~= crlf());
    lemma_lines_headers(p, r.headers);
    lemma_lines_headers_end(p, r.headers);
    let head = r.head();
    assert(head =~= p + header_lines(r.headers));
    let i = head.len() - 2;
    assert(w =~= head + crlf() + encode_utf8(r.body));
    assert(head[i] == head.subrange(i, head.len() as int)[0]);
    assert(head[i + 1] == head.subrange(i, head.len() as int)[1]);
    assert forall|j: int| 0 <= j < i implies !blank_at(w, j) by {
        if blank_at(w, j) {
            assert(head[j] == w[j]);
            assert(head[j] == 13);
            assert(head[j + 2] == w[j + 2]);
        }
    }
    assert(w.subrange(i + 4, w.len() as int) =~= encode_utf8(r.body));
}

} // verus!
