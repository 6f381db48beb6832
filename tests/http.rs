use oxyweb::http::{dispatch, static_file_path, static_reply, Reply};
use oxyweb::{run, Application, Config, HttpApplication, Request, Response, StatusCode};

struct Declines;

impl HttpApplication for Declines {
    fn handle_request(&self, _req: Request) -> Option<Response> {
        None
    }
}

fn file(r: Reply) -> (String, StatusCode) {
    match r {
        Reply::File { path, status } => (path, status),
        other => panic!("expected a file, got {:?}", other),
    }
}

#[test]
fn unhandled_missing_path_gives_not_found_page() {
    let r = run(&Declines, b"GET /missing HTTP/1.1\r\n\r\n");
    let path = match r {
        Reply::Static { path } => path,
        other => panic!("expected a static file, got {:?}", other),
    };
    assert_eq!(path, "res/missing");
    assert_eq!(static_reply(path, false), ("res/404.html".to_string(), StatusCode::NotFound));
}

#[test]
fn existing_static_file_is_served_ok() {
    assert_eq!(
        static_reply("res/index.html".to_string(), true),
        ("res/index.html".to_string(), StatusCode::OK)
    );
}

#[test]
fn unparsable_request_gives_bad_request_page() {
    assert_eq!(
        file(run(&Declines, b"garbage\r\n\r\n")),
        ("res/bad_request.html".to_string(), StatusCode::BadRequest)
    );
    assert_eq!(file(run(&Declines, b"")), ("res/bad_request.html".to_string(), StatusCode::BadRequest));
}

#[test]
fn unhandled_non_get_gives_not_found_page() {
    assert_eq!(
        file(run(&Declines, b"POST /index.html HTTP/1.1\r\n\r\n")),
        ("res/404.html".to_string(), StatusCode::NotFound)
    );
}

#[test]
fn application_answer_is_sent() {
    match run(&Application, b"GET /hello HTTP/1.1\r\n\r\n") {
        Reply::Send(r) => {
            assert_eq!(r.status, StatusCode::OK);
            assert_eq!(r.body, "Hello, World");
        }
        other => panic!("expected a response, got {:?}", other),
    }
    match run(&Application, b"POST /hello HTTP/1.1\r\n\r\n") {
        Reply::File { status, .. } => assert_eq!(status, StatusCode::NotFound),
        other => panic!("expected the not-found page, got {:?}", other),
    }
}

#[test]
fn dispatch_prefers_the_answer() {
    let req = Request::parse(b"GET /x HTTP/1.1\r\n\r\n").unwrap();
    let answer = Response { status: StatusCode::Accepted, body: "ok".to_string(), headers: vec![] };
    match dispatch(&req, Some(answer)) {
        Reply::Send(r) => assert_eq!(r.status, StatusCode::Accepted),
        other => panic!("expected a response, got {:?}", other),
    }
}

#[test]
fn static_paths() {
    assert_eq!(static_file_path("/"), "res/index.html");
    assert_eq!(static_file_path(""), "res/index.html");
    assert_eq!(static_file_path("/docs/"), "res/docs/index.html");
    assert_eq!(static_file_path("/style.css"), "res/style.css");
    assert_eq!(static_file_path("/../../etc/passwd"), "res/etc/passwd");
    assert_eq!(static_file_path("/a/..../b"), "res/a/..b");
    assert_eq!(static_file_path("/a/.../b"), "res/a/.b");
    assert_eq!(static_file_path("no-slash"), "res/no-slash");
    assert_eq!(static_file_path("/ünï/"), "res/ünï/index.html");
}

#[test]
fn config_port_and_address() {
    assert_eq!(Config::from_port(None).port, "8080");
    let c = Config::from_port(Some("3000".to_string()));
    assert_eq!(c.port, "3000");
    assert_eq!(c.address(), "0.0.0.0:3000");
}

#[test]
fn parent_refs_brought_together_are_removed_too() {
    assert_eq!(static_file_path("/....//x"), "res/x");
    assert_eq!(static_file_path("/....//....//etc/passwd"), "res/etc/passwd");
    assert_eq!(static_file_path("/.../...//x"), "res/x");
}
