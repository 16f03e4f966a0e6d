use http_server::encoding::{has_token, negotiate, Encoding};
use http_server::error::ErrorKind;
use http_server::request::Method;
use http_server::router::{route, Route};

fn echo_text(path: &[u8]) -> Vec<u8> {
    match route(Method::Get, path) {
        Ok(Route::Echo(text)) => text,
        other => panic!("not the echo route: {:?}", other),
    }
}

#[test]
fn the_root_is_the_path_slash_alone() {
    assert!(matches!(route(Method::Get, b"/"), Ok(Route::Root)));
    assert!(matches!(route(Method::Get, b"//"), Err(ErrorKind::NotFound)));
    assert!(matches!(route(Method::Get, b""), Err(ErrorKind::NotFound)));
    assert!(matches!(route(Method::Post, b"/"), Err(ErrorKind::NotFound)));
}

#[test]
fn echo_captures_up_to_the_next_slash() {
    assert_eq!(echo_text(b"/echo/abc"), b"abc".to_vec());
    assert_eq!(echo_text(b"/echo/abc/def"), b"abc".to_vec());
    assert_eq!(echo_text(b"/echo/"), b"".to_vec());
    assert_eq!(echo_text(b"/echo//x"), b"".to_vec());
}

#[test]
fn echo_without_its_slash_is_not_found() {
    assert!(matches!(route(Method::Get, b"/echo"), Err(ErrorKind::NotFound)));
    assert!(matches!(route(Method::Get, b"/echoes/x"), Err(ErrorKind::NotFound)));
}

#[test]
fn user_agent_matches_as_a_prefix() {
    assert!(matches!(route(Method::Get, b"/user-agent"), Ok(Route::UserAgent)));
    assert!(matches!(route(Method::Get, b"/user-agent/x"), Ok(Route::UserAgent)));
    assert!(matches!(route(Method::Get, b"/user-agents"), Ok(Route::UserAgent)));
    assert!(matches!(route(Method::Get, b"/user-agen"), Err(ErrorKind::NotFound)));
    assert!(matches!(route(Method::Post, b"/user-agent"), Err(ErrorKind::NotFound)));
}

#[test]
fn files_take_get_and_post() {
    match route(Method::Get, b"/files/test.txt") {
        Ok(Route::FileGet(name)) => assert_eq!(name, b"test.txt".to_vec()),
        other => panic!("not a file read: {:?}", other),
    }
    match route(Method::Post, b"/files/test.txt/more") {
        Ok(Route::FilePost(name)) => assert_eq!(name, b"test.txt".to_vec()),
        other => panic!("not a file write: {:?}", other),
    }
    match route(Method::Get, b"/files/..") {
        Ok(Route::FileGet(name)) => assert_eq!(name, b"..".to_vec()),
        other => panic!("not a file read: {:?}", other),
    }
}

#[test]
fn post_reaches_the_file_route_only() {
    assert!(matches!(route(Method::Post, b"/echo/x"), Err(ErrorKind::NotFound)));
    assert!(matches!(route(Method::Post, b"/files"), Err(ErrorKind::NotFound)));
}

#[test]
fn other_methods_reach_no_route() {
    assert!(matches!(route(Method::Other, b"/"), Err(ErrorKind::NotFound)));
    assert!(matches!(route(Method::Other, b"/echo/x"), Err(ErrorKind::NotFound)));
    assert!(matches!(route(Method::Other, b"/files/x"), Err(ErrorKind::NotFound)));
}

#[test]
fn unknown_paths_are_not_found() {
    assert!(matches!(route(Method::Get, b"/nope"), Err(ErrorKind::NotFound)));
    assert!(matches!(route(Method::Get, b"/x/files/y"), Err(ErrorKind::NotFound)));
}

#[test]
fn gzip_is_chosen_where_it_is_listed() {
    assert_eq!(negotiate(Some(&b"gzip".to_vec())), Encoding::Gzip);
    assert_eq!(negotiate(Some(&b"deflate, gzip, br".to_vec())), Encoding::Gzip);
    assert_eq!(negotiate(Some(&b"deflate,gzip".to_vec())), Encoding::Gzip);
    assert_eq!(negotiate(Some(&b"br gzip".to_vec())), Encoding::Gzip);
    assert_eq!(negotiate(Some(&b"gzip,".to_vec())), Encoding::Gzip);
}

#[test]
fn anything_else_is_sent_as_it_is() {
    assert_eq!(negotiate(None), Encoding::Identity);
    assert_eq!(negotiate(Some(&b"".to_vec())), Encoding::Identity);
    assert_eq!(negotiate(Some(&b"deflate, br".to_vec())), Encoding::Identity);
    assert_eq!(negotiate(Some(&b"GZIP".to_vec())), Encoding::Identity);
    assert_eq!(negotiate(Some(&b"gzip;q=1.0".to_vec())), Encoding::Identity);
    assert_eq!(negotiate(Some(&b"xgzip, gzipx".to_vec())), Encoding::Identity);
    assert_eq!(negotiate(Some(&b"invalid-encoding".to_vec())), Encoding::Identity);
}

#[test]
fn has_token_wants_a_whole_token() {
    assert!(has_token(b"a, b", b"b"));
    assert!(has_token(b"a, b", b"a"));
    assert!(!has_token(b"ab", b"a"));
    assert!(!has_token(b"ab", b"b"));
    assert!(!has_token(b"a", b"ab"));
    assert!(has_token(b"xa a", b"a"));
}
