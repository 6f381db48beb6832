use oxyweb::{Response, StatusCode};

#[test]
fn response_is_framed() {
    let r = Response { status: StatusCode::OK, body: "hello".to_string(), headers: vec!["X-A: 1".to_string()] };
    assert_eq!(r.to_bytes(), b"HTTP/1.1 200 OK\r\nContent-Length: 5\r\nX-A: 1\r\n\r\nhello".to_vec());
}

#[test]
fn empty_response_is_framed() {
    let r = Response::default();
    assert_eq!(r.to_bytes(), b"HTTP/1.1 200 OK\r\nContent-Length: 0\r\n\r\n".to_vec());
}

#[test]
fn content_length_counts_bytes() {
    let r = Response { status: StatusCode::NotFound, body: "héllo wörld".to_string(), headers: vec![] };
    let out = r.to_bytes();
    let body = "héllo wörld".as_bytes();
    assert_eq!(body.len(), 13);
    let head = b"HTTP/1.1 404 Not Found\r\nContent-Length: 13\r\n\r\n";
    assert_eq!(&out[..head.len()], &head[..]);
    assert_eq!(&out[head.len()..], body);
}

#[test]
fn long_body_length_has_all_digits() {
    let body = "x".repeat(1234);
    let r = Response { status: StatusCode::OK, body: body.clone(), headers: vec![] };
    let out = String::from_utf8(r.to_bytes()).unwrap();
    assert!(out.starts_with("HTTP/1.1 200 OK\r\nContent-Length: 1234\r\n\r\n"));
    assert!(out.ends_with(&body));
    assert_eq!(out.len(), "HTTP/1.1 200 OK\r\nContent-Length: 1234\r\n\r\n".len() + 1234);
}

#[test]
fn headers_keep_their_order() {
    let r = Response {
        status: StatusCode::BadRequest,
        body: String::new(),
        headers: vec!["B: 2".to_string(), "A: 1".to_string(), "B: 2".to_string()],
    };
    assert_eq!(
        r.to_bytes(),
        b"HTTP/1.1 400 Bad Request\r\nContent-Length: 0\r\nB: 2\r\nA: 1\r\nB: 2\r\n\r\n".to_vec()
    );
}

#[test]
fn serializing_twice_gives_the_same_bytes() {
    let r = Response { status: StatusCode::Created, body: "done".to_string(), headers: vec!["K: v".to_string()] };
    assert_eq!(r.to_bytes(), r.to_bytes());
}

#[test]
fn reason_phrases_are_exact() {
    assert_eq!(StatusCode::Continue.get_text(), "100 Continue");
    assert_eq!(StatusCode::OK.get_text(), "200 OK");
    assert_eq!(StatusCode::NonAuthoritativeInformation.get_text(), "203 Non-Authoritative Information");
    assert_eq!(StatusCode::TemporaryRedirect.get_text(), "307 Temporary Redirect");
    assert_eq!(StatusCode::BadRequest.get_text(), "400 Bad Request");
    assert_eq!(StatusCode::NotFound.get_text(), "404 Not Found");
    assert_eq!(StatusCode::RequestTimeout.get_text(), "408 Request Time-out");
    assert_eq!(StatusCode::RequestUriTooLarge.get_text(), "414 Request-URI Too Large");
    assert_eq!(StatusCode::RequestedRangeNotSatisfiable.get_text(), "416 Requested range not satisfiable");
    assert_eq!(StatusCode::GatewayTimeout.get_text(), "504 Gateway Time-out");
    assert_eq!(StatusCode::HttpVersionNotSupported.get_text(), "505 HTTP Version not supported");
}

#[test]
fn default_response_is_ok_and_empty() {
    let r = Response::default();
    assert_eq!(r.status, StatusCode::OK);
    assert!(r.body.is_empty());
    assert!(r.headers.is_empty());
}

#[test]
fn body_follows_the_first_blank_line() {
    let r = Response {
        status: StatusCode::OK,
        body: "a\r\n\r\nb".to_string(),
        headers: vec!["X: 1".to_string(), "Y: ü".to_string()],
    };
    let out = r.to_bytes();
    let i = out.windows(4).position(|w| w == b"\r\n\r\n").unwrap();
    assert_eq!(&out[i + 4..], r.body.as_bytes());
    assert_eq!(out.len(), i + 4 + r.body.len());
    assert_eq!(out.split(|b| *b == b'\n').nth(1).unwrap(), b"Content-Length: 6\r");
}
