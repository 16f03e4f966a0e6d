use http_server::bytes::{
    find, has_at, same, split, strip_whitespace, take_before, to_decimal, to_lower, trim_fill,
};

#[test]
fn trim_fill_drops_the_zero_bytes_at_the_end_only() {
    assert_eq!(trim_fill(b"ab\0\0\0"), b"ab");
    assert_eq!(trim_fill(b"\0a\0b\0"), b"\0a\0b");
    assert_eq!(trim_fill(b"\0\0"), b"");
    assert_eq!(trim_fill(b""), b"");
    assert_eq!(trim_fill(b"abc"), b"abc");
}

#[test]
fn trim_fill_twice_is_trim_fill_once() {
    let once = trim_fill(b"x\0y\0\0").to_vec();
    assert_eq!(trim_fill(&once), &once[..]);
}

#[test]
fn find_gives_the_first_position() {
    assert_eq!(find(b"a\r\n\r\nb\r\n\r\n", b"\r\n\r\n"), Some(1));
    assert_eq!(find(b"aaa", b"aa"), Some(0));
    assert_eq!(find(b"abc", b"c"), Some(2));
    assert_eq!(find(b"abc", b"d"), None);
    assert_eq!(find(b"ab", b"abc"), None);
    assert_eq!(find(b"", b""), Some(0));
    assert_eq!(find(b"abc", b""), Some(0));
}

#[test]
fn has_at_compares_in_place() {
    assert!(has_at(b"/echo/x", b"/echo/", 0));
    assert!(has_at(b"/echo/x", b"x", 6));
    assert!(has_at(b"/echo/x", b"", 7));
    assert!(!has_at(b"/echo/x", b"", 8));
    assert!(!has_at(b"/echo/x", b"xy", 6));
    assert!(!has_at(b"/echo/x", b"echo", 0));
    assert!(!has_at(b"a", b"a", usize::MAX));
}

#[test]
fn same_is_equality() {
    assert!(same(b"GET", b"GET"));
    assert!(!same(b"GET", b"GE"));
    assert!(!same(b"GET", b"GEt"));
    assert!(same(b"", b""));
}

#[test]
fn split_keeps_empty_parts() {
    assert_eq!(
        split(b"/a//b/", b"/"),
        vec![b"".to_vec(), b"a".to_vec(), b"".to_vec(), b"b".to_vec(), b"".to_vec()]
    );
    assert_eq!(split(b"abc", b"/"), vec![b"abc".to_vec()]);
    assert_eq!(split(b"", b"/"), vec![b"".to_vec()]);
    assert_eq!(split(b"a\r\nb\r\n", b"\r\n"), vec![b"a".to_vec(), b"b".to_vec(), b"".to_vec()]);
    assert_eq!(split(b"aaa", b"aa"), vec![b"".to_vec(), b"a".to_vec()]);
}

#[test]
fn split_on_nothing_gives_the_whole() {
    assert_eq!(split(b"abc", b""), vec![b"abc".to_vec()]);
}

#[test]
fn take_before_stops_at_the_separator() {
    assert_eq!(take_before(b"abc/def/g", b"/"), b"abc".to_vec());
    assert_eq!(take_before(b"abc", b"/"), b"abc".to_vec());
    assert_eq!(take_before(b"/abc", b"/"), b"".to_vec());
    assert_eq!(take_before(b"", b"/"), b"".to_vec());
}

#[test]
fn to_lower_changes_ascii_capitals_only() {
    assert_eq!(to_lower(b"User-Agent"), b"user-agent".to_vec());
    assert_eq!(to_lower(b"AZ@[az`{09"), b"az@[az`{09".to_vec());
    assert_eq!(to_lower("\u{c9}".as_bytes()), "\u{c9}".as_bytes().to_vec());
}

#[test]
fn strip_whitespace_takes_out_every_whitespace_byte() {
    assert_eq!(strip_whitespace(b" a b\tc\r\nd\x0ce "), b"abcde".to_vec());
    assert_eq!(strip_whitespace(b"foo/1.0"), b"foo/1.0".to_vec());
    assert_eq!(strip_whitespace(b"a\x0bb"), b"a\x0bb".to_vec());
    assert_eq!(strip_whitespace(b"   "), b"".to_vec());
}

#[test]
fn to_decimal_writes_digits_without_leading_zeros() {
    assert_eq!(to_decimal(0), b"0".to_vec());
    assert_eq!(to_decimal(7), b"7".to_vec());
    assert_eq!(to_decimal(10), b"10".to_vec());
    assert_eq!(to_decimal(256), b"256".to_vec());
    assert_eq!(to_decimal(1000), b"1000".to_vec());
    assert_eq!(to_decimal(usize::MAX), usize::MAX.to_string().into_bytes());
}
