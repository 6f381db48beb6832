//! What the server does with one connection: parse the request, let the
//! application answer it, and fall back to static files where it does not.
use vstd::prelude::*;
use vstd::string::*;

use crate::request::{parse_spec, Request, RequestView};
use crate::response::{Response, ResponseView, StatusCode};
use crate::Method;

verus! {

/// An application served by the server.
pub trait HttpApplication: Send + Sync {
    /// Called for every request. Where it returns `None`, a static file is
    /// served instead.
    fn handle_request(&self, req: Request) -> Option<Response>;
}

/// What is to be written back on a connection.
#[derive(Debug)]
pub enum Reply {
    /// This response.
    Send(Response),
    /// The file at `path` as the body, with `status`.
    File { path: String, status: StatusCode },
    /// The file at `path` with `200 OK` where it exists, else the not-found
    /// page (see `static_reply`).
    Static { path: String },
}

/// A reply as mathematical values.
pub enum ReplyView {
    Send(ResponseView),
    File { path: Seq<char>, status: StatusCode },
    Static { path: Seq<char> },
}

impl View for Reply {
    type V = ReplyView;

    open spec fn view(&self) -> ReplyView {
        match self {
            Reply::Send(r) => ReplyView::Send(r@),
            Reply::File { path, status } => ReplyView::File { path: path@, status: *status },
            Reply::Static { path } => ReplyView::Static { path: path@ },
        }
    }
}

/// The page served for a request that could not be parsed.
pub open spec fn bad_request_page() -> Seq<char> {
    "res/bad_request.html"@
}

/// The page served where nothing answers a request.
pub open spec fn not_found_page() -> Seq<char> {
    "res/404.html"@
}

/// One pass over `s` that takes out every `../` it meets, scanning from the
/// left; text that a removal brings together is left for the next pass.
pub open spec fn remove_parent_refs(s: Seq<char>) -> Seq<char>
    decreases s.len(),
{
    if s.len() >= 3 && s[0] == '.' && s[1] == '.' && s[2] == '/' {
        remove_parent_refs(s.skip(3))
    } else if s.len() == 0 {
        s
    } else {
        seq![s[0]] + remove_parent_refs(s.drop_first())
    }
}

/// Whether `s` holds `../` starting at `i`.
pub open spec fn parent_ref_at(s: Seq<char>, i: int) -> bool {
    0 <= i && i + 2 < s.len() && s[i] == '.' && s[i + 1] == '.' && s[i + 2] == '/'
}

/// Whether `s` holds `../` anywhere.
pub open spec fn has_parent_ref(s: Seq<char>) -> bool {
    exists|i: int| parent_ref_at(s, i)
}

/// A pass never lengthens the text, and shortens it where it holds `../`.
pub proof fn lemma_remove_shortens(s: Seq<char>)
    ensures
        remove_parent_refs(s).len() <= s.len(),
        has_parent_ref(s) ==> remove_parent_refs(s).len() < s.len(),
    decreases s.len(),
{
    if parent_ref_at(s, 0) {
        lemma_remove_shortens(s.skip(3));
    } else if s.len() > 0 {
        let t = s.drop_first();
        lemma_remove_shortens(t);
        if has_parent_ref(s) {
            let i = choose|i: int| parent_ref_at(s, i);
            assert(parent_ref_at(t, i - 1));
        }
    }
}

/// `s` after passes of `remove_parent_refs` until no `../` is left.
pub open spec fn remove_all_parent_refs(s: Seq<char>) -> Seq<char>
    decreases s.len(),
{
    if has_parent_ref(s) {
        proof {
            lemma_remove_shortens(s);
        }
        remove_all_parent_refs(remove_parent_refs(s))
    } else {
        s
    }
}

/// What the repeated passes leave holds no `../`.
pub proof fn lemma_no_parent_ref_left(s: Seq<char>)
    ensures
        !has_parent_ref(remove_all_parent_refs(s)),
    decreases s.len(),
{
    if has_parent_ref(s) {
        lemma_remove_shortens(s);
        lemma_no_parent_ref_left(remove_parent_refs(s));
    }
}

/// Whether `s` holds `../` anywhere.
pub fn contains_parent_ref(s: &str) -> (r: bool)
    ensures
        r == has_parent_ref(s@),
{
    let n = s.unicode_len();
    let mut i: usize = 0;
    while i < n
        invariant
            n == s@.len(),
            i <= n,
            forall|j: int| 0 <= j < i ==> !parent_ref_at(s@, j),
        decreases n - i,
    {
        if n - i > 2 && s.get_char(i) == '.' && s.get_char(i + 1) == '.' && s.get_char(i + 2) == '/' {
            assert(parent_ref_at(s@, i as int));
            return true;
        }
        i += 1;
    }
    false
}

/// The request path under the resource directory: without its leading `/`,
/// with `index.html` added where it ends in `/`.
pub open spec fn resource_path(p: Seq<char>) -> Seq<char> {
    let stripped = if p.len() > 0 && p[0] == '/' {
        p.drop_first()
    } else {
        p
    };
    let joined = "res/"@ + stripped;
    if joined.last() == '/' {
        joined + "index.html"@
    } else {
        joined
    }
}

/// The file that the static fallback looks for.
pub open spec fn static_path(p: Seq<char>) -> Seq<char> {
    remove_all_parent_refs(resource_path(p))
}

/// What is written back for a parsed request, given what the application
/// answered.
pub open spec fn reply_for(q: RequestView, handled: Option<ResponseView>) -> ReplyView {
    match handled {
        Some(r) => ReplyView::Send(r),
        None => if q.method != Method::Get {
            ReplyView::File { path: not_found_page(), status: StatusCode::NotFound }
        } else {
            ReplyView::Static { path: static_path(q.path) }
        },
    }
}

/// What the application answered, as mathematical values.
pub open spec fn answer_view(handled: Option<Response>) -> Option<ResponseView> {
    match handled {
        Some(h) => Some(h@),
        None => None,
    }
}

/// One pass that takes `../` out of `s`, as `remove_parent_refs` describes.
pub fn strip_parent_refs(s: &str) -> (r: String)
    ensures
        r@ == remove_parent_refs(s@),
{
    let n = s.unicode_len();
    let mut out = String::new();
    let mut i: usize = 0;
    assert(s@.skip(0) =~= s@);
    assert(out@ + remove_parent_refs(s@) =~= remove_parent_refs(s@));
    while i < n
        invariant
            n == s@.len(),
            i <= n,
            remove_parent_refs(s@) == out@ + remove_parent_refs(s@.skip(i as int)),
        decreases n - i,
    {
        let ghost rest = s@.skip(i as int);
        if n - i > 2 && s.get_char(i) == '.' && s.get_char(i + 1) == '.' && s.get_char(i + 2) == '/' {
            assert(rest.skip(3) =~= s@.skip(i + 3));
            i = i + 3;
        } else {
            let ghost before = out@;
            out.append(s.substring_char(i, i + 1));
            assert(rest.drop_first() =~= s@.skip(i + 1));
            assert(s@.subrange(i as int, i + 1) =~= seq![rest[0]]);
            assert(remove_parent_refs(rest) == seq![rest[0]] + remove_parent_refs(rest.drop_first()));
            assert(before + remove_parent_refs(rest) =~= out@ + remove_parent_refs(s@.skip(i + 1)));
            i = i + 1;
        }
    }
    assert(s@.skip(n as int) =~= seq![]);
    assert(out@ + seq![] =~= out@);
    out
}

/// The file that the static fallback looks for, for a request path.
pub fn static_file_path(path: &str) -> (r: String)
    ensures
        r@ == static_path(path@),
        forall|i: int| !parent_ref_at(r@, i),
{
    let n = path.unicode_len();
    let stripped = if n > 0 && path.get_char(0) == '/' {
        path.substring_char(1, n)
    } else {
        path.substring_char(0, n)
    };
    assert(stripped@ =~= (if path@.len() > 0 && path@[0] == '/' {
        path@.drop_first()
    } else {
        path@
    }));
    let mut joined = String::from_str("res/");
    joined.append(stripped);
    proof {
        reveal_strlit("res/");
    }
    let m = joined.as_str().unicode_len();
    if joined.as_str().get_char(m - 1) == '/' {
        joined.append("index.html");
    }
    assert(joined@ == resource_path(path@));
    let mut r = joined;
    while contains_parent_ref(r.as_str())
        invariant
            remove_all_parent_refs(r@) == static_path(path@),
        decreases r@.len(),
    {
        proof {
            lemma_remove_shortens(r@);
        }
        r = strip_parent_refs(r.as_str());
    }
    proof {
        lemma_no_parent_ref_left(resource_path(path@));
    }
    r
}

/// Decides what is written back for a parsed request, given what the
/// application answered: its response where it gave one; else, for a `GET`,
/// the static file named by the path, and for any other method the
/// not-found page.
pub fn dispatch(request: &Request, handled: Option<Response>) -> (r: Reply)
    ensures
        r@ == reply_for(request@, answer_view(handled)),
{
    match handled {
        Some(resp) => Reply::Send(resp),
        None => if request.method != Method::Get {
            Reply::File { path: String::from_str("res/404.html"), status: StatusCode::NotFound }
        } else {
            Reply::Static { path: static_file_path(request.path.as_str()) }
        },
    }
}

/// The file to serve for a static path once it is known whether the file
/// exists: the file with `200 OK`, else the not-found page with
/// `404 Not Found`.
pub fn static_reply(path: String, exists: bool) -> (r: (String, StatusCode))
    ensures
        exists ==> r.0@ == path@ && r.1 == StatusCode::OK,
        !exists ==> r.0@ == not_found_page() && r.1 == StatusCode::NotFound,
{
    if exists {
        (path, StatusCode::OK)
    } else {
        (String::from_str("res/404.html"), StatusCode::NotFound)
    }
}

/// Runs the application on the bytes of one request and decides what is
/// written back: the bad-request page with `400 Bad Request` where the bytes
/// do not parse, else what `dispatch` decides for the application's answer.
pub fn run<T: HttpApplication>(application: &T, input: &[u8]) -> (r: Reply)
    ensures
        parse_spec(input@) is Err ==> r@ == (ReplyView::File {
            path: bad_request_page(),
            status: StatusCode::BadRequest,
        }),
        parse_spec(input@) matches Ok(q) ==> exists|h: Option<ResponseView>|
            r@ == reply_for(q, h),
{
    match Request::parse(input) {
        Ok(req) => {
            let handled = application.handle_request(req.clone());
            let ghost h = answer_view(handled);
            let r = dispatch(&req, handled);
            assert(r@ == reply_for(req@, h));
            r
        },
        Err(_) => Reply::File {
            path: String::from_str("res/bad_request.html"),
            status: StatusCode::BadRequest,
        },
    }
}

} // verus!
