use crate::bytes::{ascii, decimal, literal, lowered, to_decimal};
use crate::encoding::Encoding;
use crate::header::{entries, lookup, Header};
use vstd::prelude::*;

verus! {

/// The status of a response.
#[derive(Clone, Copy, Debug, PartialEq, Eq, Structural)]
pub enum Status {
    /// 200 OK
    Okay,
    /// 201 Created
    Created,
    /// 404 Not Found
    NotFound,
    /// 500 Internal Server Error
    InternalServerError,
}

/// What kind of content a body holds.
#[derive(Clone, Copy, Debug, PartialEq, Eq, Structural)]
pub enum ContentType {
    /// text/plain
    TextPlain,
    /// application/octet-stream
    OctetStream,
}

/// The numeric code of a status.
pub open spec fn status_code(status: Status) -> nat {
    match status {
        Status::Okay => 200,
        Status::Created => 201,
        Status::NotFound => 404,
        Status::InternalServerError => 500,
    }
}

/// The reason phrase of a status.
pub open spec fn reason_phrase(status: Status) -> Seq<u8> {
    match status {
        Status::Okay => ascii("OK"@),
        Status::Created => ascii("Created"@),
        Status::NotFound => ascii("Not Found"@),
        Status::InternalServerError => ascii("Internal Server Error"@),
    }
}

/// The value of the `Content-Type` header for a kind of content.
pub open spec fn content_type_text(kind: ContentType) -> Seq<u8> {
    match kind {
        ContentType::TextPlain => ascii("text/plain"@),
        ContentType::OctetStream => ascii("application/octet-stream"@),
    }
}

/// The headers of a response with a body of `length` bytes: the content type,
/// the content encoding where the body is compressed, and the length in decimal.
pub open spec fn content_headers(kind: ContentType, encoding: Encoding, length: nat) -> Seq<
    (Seq<u8>, Seq<u8>),
> {
    let first = seq![(ascii("Content-Type"@), content_type_text(kind))];
    let last = seq![(ascii("Content-Length"@), decimal(length))];
    match encoding {
        Encoding::Identity => first + last,
        Encoding::Gzip => first + seq![(ascii("Content-Encoding"@), ascii("gzip"@))] + last,
    }
}

/// A response as plain values.
pub struct ResponseView {
    pub status: Status,
    pub headers: Seq<(Seq<u8>, Seq<u8>)>,
    pub body: Seq<u8>,
}

/// A response with a status alone: no headers and an empty body.
pub open spec fn bare(status: Status) -> ResponseView {
    ResponseView { status, headers: Seq::empty(), body: Seq::empty() }
}

/// A 200 response that carries `body`, with the headers that describe it.
pub open spec fn content(kind: ContentType, encoding: Encoding, body: Seq<u8>) -> ResponseView {
    ResponseView {
        status: Status::Okay,
        headers: content_headers(kind, encoding, body.len()),
        body,
    }
}

/// Whether a response is one that this library makes: a status alone, or a
/// body with the headers that are computed from it.
pub open spec fn well_formed(response: ResponseView) -> bool {
    ||| response == bare(response.status)
    ||| exists|kind: ContentType, encoding: Encoding|
        response == #[trigger] content(kind, encoding, response.body)
}

/// The header lines of a response on the wire, each ended by a line break.
pub open spec fn header_lines(headers: Seq<(Seq<u8>, Seq<u8>)>) -> Seq<u8>
    decreases headers.len(),
{
    if headers.len() == 0 {
        Seq::empty()
    } else {
        header_lines(headers.drop_last()) + headers.last().0 + ascii(": "@) + headers.last().1
            + ascii("\r\n"@)
    }
}

/// The status line of a response on the wire, without its line break.
pub open spec fn status_line(status: Status) -> Seq<u8> {
    ascii("HTTP/1.1 "@) + decimal(status_code(status)) + ascii(" "@) + reason_phrase(status)
}

/// A response on the wire: the status line, the header lines, an empty line and
/// the body, byte for byte.
pub open spec fn wire(response: ResponseView) -> Seq<u8> {
    status_line(response.status) + ascii("\r\n"@) + header_lines(response.headers) + ascii(
        "\r\n"@,
    ) + response.body
}

/// The headers that describe a body can be looked up by name: the content type
/// and the length always, the content encoding exactly where the body is
/// compressed.
pub proof fn lemma_content_headers(kind: ContentType, encoding: Encoding, length: nat)
    ensures
        lookup(content_headers(kind, encoding, length), ascii("Content-Type"@)) == Some(
            content_type_text(kind),
        ),
        lookup(content_headers(kind, encoding, length), ascii("Content-Length"@)) == Some(
            decimal(length),
        ),
        lookup(content_headers(kind, encoding, length), ascii("Content-Encoding"@))
            == match encoding {
            Encoding::Gzip => Some(ascii("gzip"@)),
            Encoding::Identity => None,
        },
{
    reveal_strlit("Content-Type");
    reveal_strlit("Content-Encoding");
    reveal_strlit("Content-Length");
    let list = content_headers(kind, encoding, length);
    let kind_name = ascii("Content-Type"@);
    let encoding_name = ascii("Content-Encoding"@);
    let length_name = ascii("Content-Length"@);
    assert(lowered(kind_name).len() == 12);
    assert(lowered(encoding_name).len() == 16);
    assert(lowered(length_name).len() == 14);
    reveal_with_fuel(lookup, 4);
    match encoding {
        Encoding::Identity => {
            assert(list.len() == 2);
            assert(list.drop_last() =~= seq![(kind_name, content_type_text(kind))]);
            assert(list.drop_last().drop_last() =~= Seq::empty());
        },
        Encoding::Gzip => {
            assert(list.len() == 3);
            assert(list.drop_last() =~= seq![
                (kind_name, content_type_text(kind)),
                (encoding_name, ascii("gzip"@)),
            ]);
            assert(list.drop_last().drop_last() =~= seq![(kind_name, content_type_text(kind))]);
            assert(list.drop_last().drop_last().drop_last() =~= Seq::empty());
        },
    }
}

/// The decimal digits of the status codes.
pub proof fn lemma_status_digits()
    ensures
        decimal(200) == ascii("200"@),
        decimal(201) == ascii("201"@),
        decimal(404) == ascii("404"@),
        decimal(500) == ascii("500"@),
{
    reveal_strlit("200");
    reveal_strlit("201");
    reveal_strlit("404");
    reveal_strlit("500");
    reveal_with_fuel(decimal, 3);
    assert(decimal(200) =~= ascii("200"@));
    assert(decimal(201) =~= ascii("201"@));
    assert(decimal(404) =~= ascii("404"@));
    assert(decimal(500) =~= ascii("500"@));
}

/// A response with a status alone is, on the wire, its status line and an
/// empty line.
pub proof fn lemma_wire_of_bare()
    ensures
        wire(bare(Status::Okay)) == ascii("HTTP/1.1 200 OK\r\n\r\n"@),
        wire(bare(Status::Created)) == ascii("HTTP/1.1 201 Created\r\n\r\n"@),
        wire(bare(Status::NotFound)) == ascii("HTTP/1.1 404 Not Found\r\n\r\n"@),
        wire(bare(Status::InternalServerError)) == ascii(
            "HTTP/1.1 500 Internal Server Error\r\n\r\n"@,
        ),
{
    lemma_status_digits();
    reveal_strlit("200");
    reveal_strlit("201");
    reveal_strlit("404");
    reveal_strlit("500");
    reveal_strlit("HTTP/1.1 ");
    reveal_strlit(" ");
    reveal_strlit("\r\n");
    reveal_strlit("OK");
    reveal_strlit("Created");
    reveal_strlit("Not Found");
    reveal_strlit("Internal Server Error");
    reveal_strlit("HTTP/1.1 200 OK\r\n\r\n");
    reveal_strlit("HTTP/1.1 201 Created\r\n\r\n");
    reveal_strlit("HTTP/1.1 404 Not Found\r\n\r\n");
    reveal_strlit("HTTP/1.1 500 Internal Server Error\r\n\r\n");
    assert(wire(bare(Status::Okay)) =~= ascii("HTTP/1.1 200 OK\r\n\r\n"@));
    assert(wire(bare(Status::Created)) =~= ascii("HTTP/1.1 201 Created\r\n\r\n"@));
    assert(wire(bare(Status::NotFound)) =~= ascii("HTTP/1.1 404 Not Found\r\n\r\n"@));
    assert(wire(bare(Status::InternalServerError)) =~= ascii(
        "HTTP/1.1 500 Internal Server Error\r\n\r\n"@,
    ));
}

/// The header lines of a response that carries a body.
proof fn lemma_header_lines_of_content(kind: ContentType, encoding: Encoding, length: nat)
    ensures
        header_lines(content_headers(kind, encoding, length)) == ascii("Content-Type"@) + ascii(
            ": "@,
        ) + content_type_text(kind) + ascii("\r\n"@) + match encoding {
            Encoding::Gzip => ascii("Content-Encoding"@) + ascii(": "@) + ascii("gzip"@) + ascii(
                "\r\n"@,
            ),
            Encoding::Identity => Seq::empty(),
        } + ascii("Content-Length"@) + ascii(": "@) + decimal(length) + ascii("\r\n"@),
{
    let list = content_headers(kind, encoding, length);
    let kind_entry = (ascii("Content-Type"@), content_type_text(kind));
    let line_break = ascii("\r\n"@);
    let colon = ascii(": "@);
    let kind_line = kind_entry.0 + colon + kind_entry.1 + line_break;
    let length_line = ascii("Content-Length"@) + colon + decimal(length) + line_break;
    assert(header_lines(Seq::empty()) =~= Seq::<u8>::empty());
    assert(seq![kind_entry].drop_last() =~= Seq::empty());
    assert(header_lines(seq![kind_entry]) =~= kind_line);
    match encoding {
        Encoding::Identity => {
            assert(list.drop_last() =~= seq![kind_entry]);
            assert(header_lines(list) =~= kind_line + Seq::<u8>::empty() + length_line);
        },
        Encoding::Gzip => {
            let encoding_entry = (ascii("Content-Encoding"@), ascii("gzip"@));
            let encoding_line = encoding_entry.0 + colon + encoding_entry.1 + line_break;
            assert(list.drop_last() =~= seq![kind_entry, encoding_entry]);
            assert(list.drop_last().drop_last() =~= seq![kind_entry]);
            assert(header_lines(list.drop_last()) =~= kind_line + encoding_line);
            assert(header_lines(list) =~= kind_line + encoding_line + length_line);
        },
    }
}

/// The fixed texts of a response that carries a body, put together.
proof fn lemma_texts_of_content()
    ensures
        ascii("HTTP/1.1 "@) + decimal(200) + ascii(" "@) + ascii("OK"@) + ascii("\r\n"@) + ascii(
            "Content-Type"@,
        ) + ascii(": "@) == ascii("HTTP/1.1 200 OK\r\nContent-Type: "@),
        ascii("\r\n"@) + ascii("Content-Encoding"@) + ascii(": "@) + ascii("gzip"@) == ascii(
            "\r\nContent-Encoding: gzip"@,
        ),
        ascii("\r\n"@) + ascii("Content-Length"@) + ascii(": "@) == ascii(
            "\r\nContent-Length: "@,
        ),
        ascii("\r\n"@) + ascii("\r\n"@) == ascii("\r\n\r\n"@),
{
    lemma_status_digits();
    reveal_strlit("200");
    reveal_strlit("HTTP/1.1 ");
    reveal_strlit(" ");
    reveal_strlit(": ");
    reveal_strlit("\r\n");
    reveal_strlit("\r\n\r\n");
    reveal_strlit("OK");
    reveal_strlit("gzip");
    reveal_strlit("Content-Type");
    reveal_strlit("Content-Encoding");
    reveal_strlit("Content-Length");
    reveal_strlit("HTTP/1.1 200 OK\r\nContent-Type: ");
    reveal_strlit("\r\nContent-Encoding: gzip");
    reveal_strlit("\r\nContent-Length: ");
    assert(ascii("HTTP/1.1 "@) + decimal(200) + ascii(" "@) + ascii("OK"@) + ascii("\r\n"@)
        + ascii("Content-Type"@) + ascii(": "@) =~= ascii("HTTP/1.1 200 OK\r\nContent-Type: "@));
    assert(ascii("\r\n"@) + ascii("Content-Encoding"@) + ascii(": "@) + ascii("gzip"@) =~= ascii(
        "\r\nContent-Encoding: gzip"@,
    ));
    assert(ascii("\r\n"@) + ascii("Content-Length"@) + ascii(": "@) =~= ascii(
        "\r\nContent-Length: "@,
    ));
    assert(ascii("\r\n"@) + ascii("\r\n"@) =~= ascii("\r\n\r\n"@));
}

/// Joining byte strings does not depend on how they are grouped: the groups
/// of a response on the wire, and the groups in which the fixed texts stand.
proof fn lemma_regrouped(
    status: Seq<u8>,
    line_break: Seq<u8>,
    first: Seq<u8>,
    middle: Seq<u8>,
    last: Seq<u8>,
    colon: Seq<u8>,
    kind: Seq<u8>,
    packing: Seq<u8>,
    digits: Seq<u8>,
    body: Seq<u8>,
)
    ensures
        status + line_break + (first + colon + kind + line_break + Seq::<u8>::empty() + last
            + colon + digits + line_break) + line_break + body == (status + line_break + first
            + colon) + kind + Seq::<u8>::empty() + (line_break + last + colon) + digits + (
        line_break + line_break) + body,
        status + line_break + (first + colon + kind + line_break + (middle + colon + packing
            + line_break) + last + colon + digits + line_break) + line_break + body == (status
            + line_break + first + colon) + kind + (line_break + middle + colon + packing) + (
        line_break + last + colon) + digits + (line_break + line_break) + body,
{
    assert(status + line_break + (first + colon + kind + line_break + Seq::<u8>::empty() + last
        + colon + digits + line_break) + line_break + body =~= (status + line_break + first
        + colon) + kind + Seq::<u8>::empty() + (line_break + last + colon) + digits + (line_break
        + line_break) + body);
    assert(status + line_break + (first + colon + kind + line_break + (middle + colon + packing
        + line_break) + last + colon + digits + line_break) + line_break + body =~= (status
        + line_break + first + colon) + kind + (line_break + middle + colon + packing) + (
    line_break + last + colon) + digits + (line_break + line_break) + body);
}

/// A response that carries a body is, on the wire, the status line for 200,
/// the content type, the content encoding where the body is compressed, the
/// length of the body in decimal, an empty line and the body.
pub proof fn lemma_wire_of_content(kind: ContentType, encoding: Encoding, body: Seq<u8>)
    ensures
        wire(content(kind, encoding, body)) == ascii("HTTP/1.1 200 OK\r\nContent-Type: "@)
            + content_type_text(kind) + match encoding {
            Encoding::Gzip => ascii("\r\nContent-Encoding: gzip"@),
            Encoding::Identity => Seq::empty(),
        } + ascii("\r\nContent-Length: "@) + decimal(body.len()) + ascii("\r\n\r\n"@) + body,
{
    lemma_header_lines_of_content(kind, encoding, body.len());
    lemma_texts_of_content();
    let status = ascii("HTTP/1.1 "@) + decimal(200) + ascii(" "@) + ascii("OK"@);
    assert(status_line(Status::Okay) == status);
    lemma_regrouped(
        status,
        ascii("\r\n"@),
        ascii("Content-Type"@),
        ascii("Content-Encoding"@),
        ascii("Content-Length"@),
        ascii(": "@),
        content_type_text(kind),
        ascii("gzip"@),
        decimal(body.len()),
        body,
    );
}

impl Status {
    /// The numeric code of this status.
    pub fn code(&self) -> (code: u16)
        ensures
            code == status_code(*self),
    {
        match self {
            Status::Okay => 200,
            Status::Created => 201,
            Status::NotFound => 404,
            Status::InternalServerError => 500,
        }
    }

    /// The reason phrase of this status.
    pub fn reason(&self) -> (phrase: &'static str)
        ensures
            ascii(phrase@) == reason_phrase(*self),
            vstd::utf8::is_ascii_chars(phrase@),
    {
        proof {
            reveal_strlit("OK");
            reveal_strlit("Created");
            reveal_strlit("Not Found");
            reveal_strlit("Internal Server Error");
        }
        match self {
            Status::Okay => "OK",
            Status::Created => "Created",
            Status::NotFound => "Not Found",
            Status::InternalServerError => "Internal Server Error",
        }
    }
}

/// A response: a status, the headers computed for its body, and the body.
#[derive(Debug)]
pub struct Response {
    status: Status,
    headers: Vec<Header>,
    body: Vec<u8>,
}

impl View for Response {
    type V = ResponseView;

    closed spec fn view(&self) -> ResponseView {
        ResponseView { status: self.status, headers: entries(self.headers@), body: self.body@ }
    }
}

impl Response {
    #[verifier::type_invariant]
    spec fn is_well_formed(&self) -> bool {
        well_formed(self@)
    }

    /// A response with a status alone.
    pub fn empty(status: Status) -> (response: Response)
        ensures
            response@ == bare(status),
    {
        let headers: Vec<Header> = Vec::new();
        let body: Vec<u8> = Vec::new();
        proof {
            assert(entries(headers@) =~= Seq::empty());
            assert(body@ =~= Seq::empty());
            assert(ResponseView { status, headers: entries(headers@), body: body@ } == bare(
                status,
            ));
        }
        Response { status, headers, body }
    }

    /// A 200 response that carries `body`.
    pub fn with_body(kind: ContentType, encoding: Encoding, body: Vec<u8>) -> (response: Response)
        ensures
            response@ == content(kind, encoding, body@),
    {
        proof {
            reveal_strlit("Content-Type");
            reveal_strlit("Content-Encoding");
            reveal_strlit("Content-Length");
            reveal_strlit("text/plain");
            reveal_strlit("application/octet-stream");
            reveal_strlit("gzip");
        }
        let mut headers: Vec<Header> = Vec::new();
        let kind_text = match kind {
            ContentType::TextPlain => literal("text/plain"),
            ContentType::OctetStream => literal("application/octet-stream"),
        };
        headers.push(
            Header {
                name: vstd::slice::slice_to_vec(literal("Content-Type")),
                value: vstd::slice::slice_to_vec(kind_text),
            },
        );
        match encoding {
            Encoding::Gzip => {
                headers.push(
                    Header {
                        name: vstd::slice::slice_to_vec(literal("Content-Encoding")),
                        value: vstd::slice::slice_to_vec(literal("gzip")),
                    },
                );
            },
            Encoding::Identity => {},
        }
        headers.push(
            Header {
                name: vstd::slice::slice_to_vec(literal("Content-Length")),
                value: to_decimal(body.len()),
            },
        );
        proof {
            assert(entries(headers@) =~= content_headers(kind, encoding, body@.len()));
            assert(ResponseView { status: Status::Okay, headers: entries(headers@), body: body@ }
                == content(kind, encoding, body@));
        }
        Response { status: Status::Okay, headers, body }
    }

    /// The status.
    pub fn status(&self) -> (status: Status)
        ensures
            status == self@.status,
    {
        self.status
    }

    /// The headers, in the order in which they are sent. They are those that
    /// are computed from the body, and none where there is no body.
    pub fn headers(&self) -> (headers: &Vec<Header>)
        ensures
            entries(headers@) == self@.headers,
            well_formed(self@),
    {
        proof {
            use_type_invariant(self);
        }
        &self.headers
    }

    /// The body.
    pub fn body(&self) -> (body: &Vec<u8>)
        ensures
            body@ == self@.body,
    {
        &self.body
    }

    /// The response as the bytes that go on the wire.
    pub fn to_bytes(&self) -> (bytes: Vec<u8>)
        ensures
            bytes@ == wire(self@),
    {
        proof {
            reveal_strlit("HTTP/1.1 ");
            reveal_strlit(" ");
            reveal_strlit(": ");
            reveal_strlit("\r\n");
        }
        let mut bytes: Vec<u8> = Vec::new();
        bytes.extend_from_slice(literal("HTTP/1.1 "));
        let code = to_decimal(self.status.code() as usize);
        bytes.extend_from_slice(code.as_slice());
        bytes.extend_from_slice(literal(" "));
        bytes.extend_from_slice(literal(self.status.reason()));
        bytes.extend_from_slice(literal("\r\n"));
        assert(bytes@ =~= status_line(self.status) + ascii("\r\n"@));
        let ghost start = bytes@;
        let mut i: usize = 0;
        assert(entries(self.headers@).subrange(0, 0) =~= Seq::empty());
        while i < self.headers.len()
            invariant
                i <= self.headers@.len(),
                vstd::utf8::is_ascii_chars(": "@),
                vstd::utf8::is_ascii_chars("\r\n"@),
                bytes@ == start + header_lines(entries(self.headers@).subrange(0, i as int)),
            decreases self.headers@.len() - i,
        {
            let ghost done = entries(self.headers@).subrange(0, i as int);
            let ghost next = entries(self.headers@).subrange(0, i + 1);
            assert(next.drop_last() =~= done);
            assert(next.last() == self.headers@[i as int]@);
            let header = &self.headers[i];
            bytes.extend_from_slice(header.name.as_slice());
            bytes.extend_from_slice(literal(": "));
            bytes.extend_from_slice(header.value.as_slice());
            bytes.extend_from_slice(literal("\r\n"));
            i = i + 1;
            assert(bytes@ =~= start + header_lines(next));
        }
        assert(entries(self.headers@).subrange(0, i as int) =~= entries(self.headers@));
        bytes.extend_from_slice(literal("\r\n"));
        bytes.extend_from_slice(self.body.as_slice());
        assert(bytes@ =~= wire(self@));
        bytes
    }
}

} // verus!
