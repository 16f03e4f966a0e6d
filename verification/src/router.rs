use crate::bytes::{
    ascii, before, begins_with, has_at, lemma_first_match_is, lemma_match_from, literal,
    matches_at, pieces, same, take_before,
};
use crate::error::ErrorKind;
use crate::request::Method;
use vstd::prelude::*;
use vstd::slice::slice_subrange;

verus! {

/// What a request asks for, with the part of the path that the route captures.
#[derive(Debug)]
pub enum Route {
    /// `GET /`
    Root,
    /// `GET /echo/{text}`, with the text
    Echo(Vec<u8>),
    /// `GET /user-agent`
    UserAgent,
    /// `GET /files/{name}`, with the name
    FileGet(Vec<u8>),
    /// `POST /files/{name}`, with the name
    FilePost(Vec<u8>),
}

/// A route as plain values.
pub enum RouteView {
    Root,
    Echo(Seq<u8>),
    UserAgent,
    FileGet(Seq<u8>),
    FilePost(Seq<u8>),
}

impl View for Route {
    type V = RouteView;

    open spec fn view(&self) -> RouteView {
        match self {
            Route::Root => RouteView::Root,
            Route::Echo(text) => RouteView::Echo(text@),
            Route::UserAgent => RouteView::UserAgent,
            Route::FileGet(name) => RouteView::FileGet(name@),
            Route::FilePost(name) => RouteView::FilePost(name@),
        }
    }
}

/// What a route captures from a path that begins with `prefix`: what follows
/// the prefix, up to the next slash or to the end of the path.
pub open spec fn capture(path: Seq<u8>, prefix: Seq<u8>) -> Seq<u8> {
    before(path.subrange(prefix.len() as int, path.len() as int), ascii("/"@))
}

/// The route of a method and path. The routes are tried in this order, and the
/// first that matches is taken: `GET /` for the path `/` alone; `GET /echo/..`;
/// `GET /user-agent` for any path that begins so; `GET` or `POST /files/..`.
/// Anything else is not found.
pub open spec fn routed(method: Method, path: Seq<u8>) -> Result<RouteView, ErrorKind> {
    if method == Method::Get && path == ascii("/"@) {
        Ok(RouteView::Root)
    } else if method == Method::Get && begins_with(path, ascii("/echo/"@)) {
        Ok(RouteView::Echo(capture(path, ascii("/echo/"@))))
    } else if method == Method::Get && begins_with(path, ascii("/user-agent"@)) {
        Ok(RouteView::UserAgent)
    } else if method == Method::Get && begins_with(path, ascii("/files/"@)) {
        Ok(RouteView::FileGet(capture(path, ascii("/files/"@))))
    } else if method == Method::Post && begins_with(path, ascii("/files/"@)) {
        Ok(RouteView::FilePost(capture(path, ascii("/files/"@))))
    } else {
        Err(ErrorKind::NotFound)
    }
}

/// What a route captures from a path that begins with `prefix`.
fn captured(path: &[u8], prefix: &[u8]) -> (part: Vec<u8>)
    requires
        begins_with(path@, prefix@),
    ensures
        part@ == capture(path@, prefix@),
{
    proof {
        reveal_strlit("/");
    }
    take_before(slice_subrange(path, prefix.len(), path.len()), literal("/"))
}

/// The route of a method and path.
pub fn route(method: Method, path: &[u8]) -> (result: Result<Route, ErrorKind>)
    ensures
        match result {
            Ok(found) => routed(method, path@) == Ok::<RouteView, ErrorKind>(found@),
            Err(kind) => routed(method, path@) == Err::<RouteView, ErrorKind>(kind),
        },
{
    proof {
        reveal_strlit("/");
        reveal_strlit("/echo/");
        reveal_strlit("/user-agent");
        reveal_strlit("/files/");
    }
    match method {
        Method::Get => {
            if same(path, literal("/")) {
                Ok(Route::Root)
            } else if has_at(path, literal("/echo/"), 0) {
                Ok(Route::Echo(captured(path, literal("/echo/"))))
            } else if has_at(path, literal("/user-agent"), 0) {
                Ok(Route::UserAgent)
            } else if has_at(path, literal("/files/"), 0) {
                Ok(Route::FileGet(captured(path, literal("/files/"))))
            } else {
                Err(ErrorKind::NotFound)
            }
        },
        Method::Post => {
            if has_at(path, literal("/files/"), 0) {
                Ok(Route::FilePost(captured(path, literal("/files/"))))
            } else {
                Err(ErrorKind::NotFound)
            }
        },
        Method::Other => Err(ErrorKind::NotFound),
    }
}

/// A path made of `/files/` and a name takes the file route with either
/// method, and the route captures the name up to its first slash.
pub proof fn lemma_file_route(path: Seq<u8>, name: Seq<u8>)
    requires
        path == ascii("/files/"@) + name,
    ensures
        routed(Method::Get, path) == Ok::<RouteView, ErrorKind>(
            RouteView::FileGet(before(name, ascii("/"@))),
        ),
        routed(Method::Post, path) == Ok::<RouteView, ErrorKind>(
            RouteView::FilePost(before(name, ascii("/"@))),
        ),
{
    reveal_strlit("/");
    reveal_strlit("/echo/");
    reveal_strlit("/user-agent");
    reveal_strlit("/files/");
    let prefix = ascii("/files/"@);
    assert(path.subrange(0, prefix.len() as int) =~= prefix);
    assert(path.subrange(prefix.len() as int, path.len() as int) =~= name);
    assert(path != ascii("/"@));
    assert(path[1] == prefix[1]);
    if begins_with(path, ascii("/echo/"@)) {
        assert(path.subrange(0, 6)[1] == path[1]);
    }
    if begins_with(path, ascii("/user-agent"@)) {
        assert(path.subrange(0, 11)[1] == path[1]);
    }
}

/// The text that the echo route captures, and the name that the file route
/// captures, is the third of the parts of the path between its slashes.
pub proof fn lemma_capture_is_third_segment(path: Seq<u8>, prefix: Seq<u8>)
    requires
        prefix == ascii("/echo/"@) || prefix == ascii("/files/"@),
        begins_with(path, prefix),
    ensures
        pieces(path, ascii("/"@)).len() >= 3,
        pieces(path, ascii("/"@))[2] == capture(path, prefix),
{
    reveal_strlit("/");
    reveal_strlit("/echo/");
    reveal_strlit("/files/");
    let slash = ascii("/"@);
    let word = prefix.len() - 2;
    assert(forall|i: int|
        0 <= i < prefix.len() ==> path[i] == path.subrange(0, prefix.len() as int)[i]);
    assert(path.subrange(0, 1) =~= slash);
    lemma_first_match_is(path, slash, 0);
    let after_first = path.subrange(1, path.len() as int);
    assert(after_first.subrange(word, word + 1) =~= slash);
    assert forall|j: int| 0 <= j < word implies !matches_at(after_first, slash, j) by {
        assert(after_first.subrange(j, j + 1)[0] == path[j + 1]);
    }
    lemma_first_match_is(after_first, slash, word);
    let after_second = after_first.subrange(word + 1, after_first.len() as int);
    assert(after_second =~= path.subrange(prefix.len() as int, path.len() as int));
    lemma_match_from(after_second, slash, 0);
    assert(pieces(after_second, slash)[0] == before(after_second, slash));
    assert(pieces(after_first, slash) == seq![after_first.subrange(0, word)] + pieces(
        after_second,
        slash,
    ));
    assert(pieces(path, slash) == seq![path.subrange(0, 0)] + pieces(after_first, slash));
}

} // verus!
