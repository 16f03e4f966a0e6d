use crate::bytes::{
    ascii, begins_with, contents, find, first_match, has_at, is_utf8, lemma_match_from,
    lemma_without_fill, literal, lowered, pieces, same, split, to_lower, trim_fill, without_fill,
    FILL,
};
use crate::error::ErrorKind;
use crate::header::{entries, find_header, lookup, Header};
use vstd::prelude::*;
use vstd::slice::{slice_subrange, slice_to_vec};
use vstd::utf8::valid_utf8;

verus! {

/// The most bytes a request may have. A connection is read once, into a buffer
/// of this size; a request that does not fit is not served.
pub const MAX_REQUEST_BYTES: usize = 256;

/// The method of a request.
#[derive(Clone, Copy, Debug, PartialEq, Eq, Structural)]
pub enum Method {
    Get,
    Post,
    /// Any other method; no route takes it.
    Other,
}

/// The method that a token of the request line names.
pub open spec fn method_of(token: Seq<u8>) -> Method {
    if token == ascii("GET"@) {
        Method::Get
    } else if token == ascii("POST"@) {
        Method::Post
    } else {
        Method::Other
    }
}

/// A request as it was read from a connection.
#[derive(Debug)]
pub struct Request {
    pub method: Method,
    /// The path, which starts with `/` in every parsed request.
    pub path: Vec<u8>,
    /// The protocol version as the request line gave it.
    pub version: Vec<u8>,
    /// The headers in the order of their lines, names in lower case.
    pub headers: Vec<Header>,
    /// What followed the empty line.
    pub body: Vec<u8>,
}

/// A request as plain values.
pub struct RequestView {
    pub method: Method,
    pub path: Seq<u8>,
    pub version: Seq<u8>,
    pub headers: Seq<(Seq<u8>, Seq<u8>)>,
    pub body: Seq<u8>,
}

impl View for Request {
    type V = RequestView;

    open spec fn view(&self) -> RequestView {
        RequestView {
            method: self.method,
            path: self.path@,
            version: self.version@,
            headers: entries(self.headers@),
            body: self.body@,
        }
    }
}

impl RequestView {
    /// The value of the header `name`: that of its last line, whatever the
    /// letter case of the name.
    pub open spec fn header(self, name: Seq<u8>) -> Option<Seq<u8>> {
        lookup(self.headers, name)
    }

    /// The parts of the path between its slashes.
    pub open spec fn path_segments(self) -> Seq<Seq<u8>> {
        pieces(self.path, ascii("/"@))
    }
}

/// The headers that a list of header lines gives: a line with `": "` in it gives
/// the name before the first `": "`, in lower case, and the value after it; a
/// line without gives nothing.
pub open spec fn header_entries(lines: Seq<Seq<u8>>) -> Seq<(Seq<u8>, Seq<u8>)>
    decreases lines.len(),
{
    if lines.len() == 0 {
        Seq::empty()
    } else {
        let earlier = header_entries(lines.drop_last());
        let line = lines.last();
        match first_match(line, ascii(": "@)) {
            Some(at) => earlier.push(
                (lowered(line.subrange(0, at)), line.subrange(at + 2, line.len() as int)),
            ),
            None => earlier,
        }
    }
}

/// The request that the head of a message gives, with `body` as its body. The
/// first line holds method, path and version, a space between them; the other
/// lines are headers. A head without a method, or without a path that starts
/// with `/`, is malformed.
pub open spec fn parsed_head(head: Seq<u8>, body: Seq<u8>) -> Result<RequestView, ErrorKind> {
    let lines = pieces(head, ascii("\r\n"@));
    let parts = pieces(lines[0], ascii(" "@));
    if parts.len() < 2 || parts[0].len() == 0 || !begins_with(parts[1], ascii("/"@)) {
        Err(ErrorKind::MalformedRequest)
    } else {
        Ok(
            RequestView {
                method: method_of(parts[0]),
                path: parts[1],
                version: if parts.len() > 2 {
                    parts[2]
                } else {
                    Seq::empty()
                },
                headers: header_entries(lines.subrange(1, lines.len() as int)),
                body,
            },
        )
    }
}

/// What a buffer read from a connection parses to. A buffer longer than
/// `MAX_REQUEST_BYTES` is malformed; one that is not UTF-8 is an encoding error.
/// The fill bytes at the end are no part of the request. The head ends at the
/// first empty line, and a buffer without one is malformed; what follows the
/// empty line is the body.
pub open spec fn parsed(buffer: Seq<u8>) -> Result<RequestView, ErrorKind> {
    if buffer.len() > MAX_REQUEST_BYTES {
        Err(ErrorKind::MalformedRequest)
    } else if !valid_utf8(buffer) {
        Err(ErrorKind::Encoding)
    } else {
        let text = without_fill(buffer);
        match first_match(text, ascii("\r\n\r\n"@)) {
            Some(end) => parsed_head(
                text.subrange(0, end),
                text.subrange(end + 4, text.len() as int),
            ),
            None => Err(ErrorKind::MalformedRequest),
        }
    }
}

/// The method that a token of the request line names.
pub fn method_from(token: &[u8]) -> (method: Method)
    ensures
        method == method_of(token@),
{
    proof {
        reveal_strlit("GET");
        reveal_strlit("POST");
    }
    if same(token, literal("GET")) {
        Method::Get
    } else if same(token, literal("POST")) {
        Method::Post
    } else {
        Method::Other
    }
}

/// The headers that the lines after the first give.
fn parse_headers(lines: &Vec<Vec<u8>>) -> (headers: Vec<Header>)
    requires
        lines@.len() >= 1,
    ensures
        entries(headers@) == header_entries(
            contents(lines@).subrange(1, lines@.len() as int),
        ),
{
    let mut headers: Vec<Header> = Vec::new();
    let mut i: usize = 1;
    proof {
        reveal_strlit(": ");
        assert(contents(lines@).subrange(1, 1) =~= Seq::empty());
        assert(entries(headers@) =~= Seq::empty());
    }
    while i < lines.len()
        invariant
            1 <= i <= lines@.len(),
            vstd::utf8::is_ascii_chars(": "@),
            ascii(": "@).len() == 2,
            entries(headers@) == header_entries(contents(lines@).subrange(1, i as int)),
        decreases lines@.len() - i,
    {
        let line = lines[i].as_slice();
        let ghost done = contents(lines@).subrange(1, i as int);
        let ghost next = contents(lines@).subrange(1, i + 1);
        let ghost before = entries(headers@);
        proof {
            assert(next.drop_last() =~= done);
            assert(next.last() == line@);
        }
        match find(line, literal(": ")) {
            Some(at) => {
                assert(at + 2 <= line@.len() == line.len());
                let name = to_lower(slice_subrange(line, 0, at));
                let value = slice_to_vec(slice_subrange(line, at + 2, line.len()));
                headers.push(Header { name, value });
                assert(entries(headers@) =~= before.push(
                    (lowered(line@.subrange(0, at as int)), line@.subrange(
                        at + 2,
                        line@.len() as int,
                    )),
                ));
            },
            None => {},
        }
        i = i + 1;
    }
    assert(contents(lines@).subrange(1, i as int) =~= contents(lines@).subrange(
        1,
        lines@.len() as int,
    ));
    headers
}

/// The request that the head of a message gives, with `body` as its body.
pub fn parse_head(head: &[u8], body: Vec<u8>) -> (result: Result<Request, ErrorKind>)
    ensures
        match result {
            Ok(request) => parsed_head(head@, body@) == Ok::<RequestView, ErrorKind>(request@),
            Err(kind) => parsed_head(head@, body@) == Err::<RequestView, ErrorKind>(kind),
        },
{
    proof {
        reveal_strlit("\r\n");
        reveal_strlit(" ");
        reveal_strlit("/");
    }
    let lines = split(head, literal("\r\n"));
    assert(pieces(head@, ascii("\r\n"@)).len() >= 1);
    assert(contents(lines@)[0] == lines@[0]@);
    let parts = split(lines[0].as_slice(), literal(" "));
    if parts.len() < 2 {
        return Err(ErrorKind::MalformedRequest);
    }
    assert(contents(parts@)[0] == parts@[0]@);
    assert(contents(parts@)[1] == parts@[1]@);
    if parts[0].len() == 0 || !has_at(parts[1].as_slice(), literal("/"), 0) {
        return Err(ErrorKind::MalformedRequest);
    }
    let method = method_from(parts[0].as_slice());
    let path = slice_to_vec(parts[1].as_slice());
    let version = if parts.len() > 2 {
        assert(contents(parts@)[2] == parts@[2]@);
        slice_to_vec(parts[2].as_slice())
    } else {
        Vec::new()
    };
    let headers = parse_headers(&lines);
    Ok(Request { method, path, version, headers, body })
}

/// The request that a buffer read from a connection holds.
pub fn parse(buffer: &[u8]) -> (result: Result<Request, ErrorKind>)
    ensures
        match result {
            Ok(request) => parsed(buffer@) == Ok::<RequestView, ErrorKind>(request@),
            Err(kind) => parsed(buffer@) == Err::<RequestView, ErrorKind>(kind),
        },
{
    if buffer.len() > MAX_REQUEST_BYTES {
        return Err(ErrorKind::MalformedRequest);
    }
    if !is_utf8(buffer) {
        return Err(ErrorKind::Encoding);
    }
    proof {
        reveal_strlit("\r\n\r\n");
    }
    let text = trim_fill(buffer);
    match find(text, literal("\r\n\r\n")) {
        Some(end) => {
            assert(end + 4 <= text@.len() == text.len());
            let body = slice_to_vec(slice_subrange(text, end + 4, text.len()));
            parse_head(slice_subrange(text, 0, end), body)
        },
        None => Err(ErrorKind::MalformedRequest),
    }
}

impl Request {
    /// The value of the header `name`, whatever the letter case of the name.
    pub fn header(&self, name: &[u8]) -> (value: Option<&Vec<u8>>)
        ensures
            match value {
                Some(found) => self@.header(name@) == Some(found@),
                None => self@.header(name@) is None,
            },
    {
        find_header(&self.headers, name)
    }

    /// The parts of the path between its slashes.
    pub fn path_segments(&self) -> (segments: Vec<Vec<u8>>)
        ensures
            contents(segments@) == self@.path_segments(),
    {
        proof {
            reveal_strlit("/");
        }
        split(self.path.as_slice(), literal("/"))
    }
}

/// In every request that a buffer parses to, the path begins with a slash and
/// the body does not end in a fill byte; and the buffer was within the limit
/// and valid UTF-8.
pub proof fn lemma_parsed_request(buffer: Seq<u8>)
    requires
        parsed(buffer) is Ok,
    ensures
        begins_with(parsed(buffer)->Ok_0.path, ascii("/"@)),
        parsed(buffer)->Ok_0.body.len() == 0 || parsed(buffer)->Ok_0.body.last() != FILL,
        without_fill(parsed(buffer)->Ok_0.body) == parsed(buffer)->Ok_0.body,
        buffer.len() <= MAX_REQUEST_BYTES,
        valid_utf8(buffer),
{
    reveal_strlit("\r\n\r\n");
    lemma_without_fill(buffer);
    let text = without_fill(buffer);
    lemma_match_from(text, ascii("\r\n\r\n"@), 0);
    let end = first_match(text, ascii("\r\n\r\n"@))->0;
    let body = text.subrange(end + 4, text.len() as int);
    assert(parsed(buffer)->Ok_0.body == body);
    if body.len() > 0 {
        assert(body.last() == text.last());
    }
}

} // verus!
