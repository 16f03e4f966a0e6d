use crate::bytes::{
    ascii, begins_with, is_whitespace, lemma_fill_is_utf8, lemma_first_match_after,
    lemma_first_match_is, lemma_pieces_joined, lemma_pieces_whole,
    lemma_without_fill_of_padded, lemma_without_whitespace_keeps, lowered, matches_at, pieces,
    without_whitespace, FILL,
};
use crate::encoding::{lists_token, Encoding};
use crate::error::ErrorKind;
use crate::handlers::{
    lemma_echo_compresses, lemma_echo_sends_text_back, planned, ActionView,
};
use crate::header::lookup;
use crate::request::{
    header_entries, method_of, parsed, parsed_head, Method, RequestView, MAX_REQUEST_BYTES,
};
use crate::response::{content, header_lines, ContentType};
use vstd::prelude::*;
use vstd::utf8::{valid_utf8, valid_utf8_concat};

verus! {

/// A request as text: the request line, the header lines, an empty line and
/// the body.
pub open spec fn request_text(
    method: Seq<u8>,
    path: Seq<u8>,
    version: Seq<u8>,
    headers: Seq<(Seq<u8>, Seq<u8>)>,
    body: Seq<u8>,
) -> Seq<u8> {
    method + ascii(" "@) + path + ascii(" "@) + version + ascii("\r\n"@) + header_lines(headers)
        + ascii("\r\n"@) + body
}

/// Whether every byte is the fill byte.
pub open spec fn is_fill(bytes: Seq<u8>) -> bool {
    forall|i: int| 0 <= i < bytes.len() ==> bytes[i] == FILL
}

/// Whether the bytes hold neither a space nor a carriage return, so that they
/// can stand as one word of a request line.
pub open spec fn is_word(bytes: Seq<u8>) -> bool {
    !bytes.contains(32u8) && !bytes.contains(13u8)
}

/// Whether a header can stand as one line: its name holds neither a colon nor
/// a carriage return, and its value holds no carriage return.
pub open spec fn is_line(header: (Seq<u8>, Seq<u8>)) -> bool {
    !header.0.contains(58u8) && !header.0.contains(13u8) && !header.1.contains(13u8)
}

/// The headers with their names in lower case.
pub open spec fn with_lowered_names(headers: Seq<(Seq<u8>, Seq<u8>)>) -> Seq<(Seq<u8>, Seq<u8>)> {
    Seq::new(headers.len(), |i: int| (lowered(headers[i].0), headers[i].1))
}

/// A header as the text of its line.
spec fn line_of(header: (Seq<u8>, Seq<u8>)) -> Seq<u8> {
    header.0 + ascii(": "@) + header.1
}

/// The lines of a list of headers.
spec fn lines_of(headers: Seq<(Seq<u8>, Seq<u8>)>) -> Seq<Seq<u8>> {
    Seq::new(headers.len(), |i: int| line_of(headers[i]))
}

/// A first line and the lines of the headers, with a line break before each
/// header line.
spec fn head_of(first: Seq<u8>, headers: Seq<(Seq<u8>, Seq<u8>)>) -> Seq<u8>
    decreases headers.len(),
{
    if headers.len() == 0 {
        first
    } else {
        head_of(first, headers.drop_last()) + ascii("\r\n"@) + line_of(headers.last())
    }
}

/// Whether each carriage return has another byte that is none two places on.
spec fn has_no_empty_line(head: Seq<u8>) -> bool {
    forall|j: int|
        0 <= j < head.len() && #[trigger] head[j] == 13u8 ==> j + 2 < head.len() && head[j + 2]
            != 13u8
}

proof fn lemma_head_and_lines(first: Seq<u8>, headers: Seq<(Seq<u8>, Seq<u8>)>)
    ensures
        first + ascii("\r\n"@) + header_lines(headers) == head_of(first, headers) + ascii(
            "\r\n"@,
        ),
    decreases headers.len(),
{
    if headers.len() == 0 {
        assert(first + ascii("\r\n"@) + header_lines(headers) =~= first + ascii("\r\n"@));
    } else {
        lemma_head_and_lines(first, headers.drop_last());
        let last = headers.last();
        let earlier = header_lines(headers.drop_last());
        assert(header_lines(headers) =~= earlier + (last.0 + ascii(": "@) + last.1 + ascii(
            "\r\n"@,
        )));
        assert(first + ascii("\r\n"@) + header_lines(headers) =~= (first + ascii("\r\n"@)
            + earlier) + line_of(last) + ascii("\r\n"@));
    }
}

proof fn lemma_lines_of_head(first: Seq<u8>, headers: Seq<(Seq<u8>, Seq<u8>)>)
    requires
        !first.contains(13u8),
        forall|i: int| 0 <= i < headers.len() ==> is_line(#[trigger] headers[i]),
    ensures
        pieces(head_of(first, headers), ascii("\r\n"@)) == seq![first] + lines_of(headers),
        has_no_empty_line(head_of(first, headers)),
    decreases headers.len(),
{
    reveal_strlit("\r\n");
    reveal_strlit(": ");
    let line_break = ascii("\r\n"@);
    if headers.len() == 0 {
        lemma_pieces_whole(first, line_break);
        assert(seq![first] + lines_of(headers) =~= seq![first]);
        assert forall|j: int| 0 <= j < first.len() implies first[j] != 13u8 by {
            assert(first.contains(first[j]));
        }
    } else {
        let earlier = headers.drop_last();
        let last = headers.last();
        let line = line_of(last);
        let head = head_of(first, earlier);
        lemma_lines_of_head(first, earlier);
        assert(!line_break.subrange(1, 2).contains(13u8)) by {
            if line_break.subrange(1, 2).contains(13u8) {
                let j = choose|j: int|
                    0 <= j < line_break.subrange(1, 2).len() && line_break.subrange(1, 2)[j]
                        == 13u8;
                assert(line_break.subrange(1, 2)[j] == 10u8);
            }
        }
        lemma_pieces_joined(head, line, line_break);
        assert forall|j: int| 0 <= j < line.len() implies line[j] != 13u8 by {
            if j < last.0.len() {
                assert(last.0.contains(last.0[j]));
            } else if j >= last.0.len() + 2 {
                assert(last.1.contains(last.1[j - last.0.len() - 2]));
            }
        }
        assert(!line.contains(13u8));
        lemma_pieces_whole(line, line_break);
        assert(lines_of(headers) =~= lines_of(earlier).push(line));
        assert(seq![first] + lines_of(earlier) + seq![line] =~= seq![first] + lines_of(headers));
        let whole = head_of(first, headers);
        assert(whole == head + line_break + line);
        assert forall|j: int| 0 <= j < whole.len() && #[trigger] whole[j] == 13u8 implies j + 2
            < whole.len() && whole[j + 2] != 13u8 by {
            if j < head.len() {
                assert(head[j] == 13u8);
                assert(whole[j + 2] == head[j + 2]);
            } else if j == head.len() {
                assert(whole[j + 2] == line[0]);
            } else if j == head.len() + 1 {
            } else {
                assert(whole[j] == line[j - head.len() - 2]);
            }
        }
    }
}

proof fn lemma_entries_of_lines(headers: Seq<(Seq<u8>, Seq<u8>)>)
    requires
        forall|i: int| 0 <= i < headers.len() ==> is_line(#[trigger] headers[i]),
    ensures
        header_entries(lines_of(headers)) == with_lowered_names(headers),
    decreases headers.len(),
{
    reveal_strlit(": ");
    if headers.len() == 0 {
        assert(with_lowered_names(headers) =~= Seq::empty());
    } else {
        let earlier = headers.drop_last();
        let last = headers.last();
        let line = line_of(last);
        let colon = ascii(": "@);
        lemma_entries_of_lines(earlier);
        assert(lines_of(headers).drop_last() =~= lines_of(earlier));
        assert(lines_of(headers).last() == line);
        let at = last.0.len() as int;
        assert(line.subrange(at, at + 2) =~= colon);
        assert forall|j: int| 0 <= j < at implies line[j] != colon[0] by {
            assert(last.0.contains(last.0[j]));
        }
        lemma_first_match_after(line, colon, at);
        assert(line.subrange(0, at) =~= last.0);
        assert(line.subrange(at + 2, line.len() as int) =~= last.1);
        assert(with_lowered_names(headers) =~= with_lowered_names(earlier).push(
            (lowered(last.0), last.1),
        ));
    }
}

proof fn lemma_words_of_request_line(method: Seq<u8>, path: Seq<u8>, version: Seq<u8>)
    requires
        is_word(method),
        is_word(path),
        is_word(version),
    ensures
        pieces(method + ascii(" "@) + path + ascii(" "@) + version, ascii(" "@)) == seq![
            method,
            path,
            version,
        ],
        !(method + ascii(" "@) + path + ascii(" "@) + version).contains(13u8),
{
    reveal_strlit(" ");
    let space = ascii(" "@);
    let line = method + space + path + space + version;
    assert(!space.subrange(1, 1).contains(32u8));
    lemma_pieces_joined(method + space + path, version, space);
    lemma_pieces_joined(method, path, space);
    lemma_pieces_whole(method, space);
    lemma_pieces_whole(path, space);
    lemma_pieces_whole(version, space);
    assert(seq![method] + seq![path] + seq![version] =~= seq![method, path, version]);
    if line.contains(13u8) {
        let j = choose|j: int| 0 <= j < line.len() && line[j] == 13u8;
        if j < method.len() {
            assert(method.contains(method[j]));
        } else if j == method.len() {
        } else if j < method.len() + 1 + path.len() {
            assert(path.contains(path[j - method.len() - 1]));
        } else if j == method.len() + 1 + path.len() {
        } else {
            assert(version.contains(version[j - method.len() - path.len() - 2]));
        }
    }
}

/// Parsing reads a request text back. A request written as text and read into
/// a buffer that is filled up behind it parses to the method that its first
/// word names, to its path, version and body, and to its headers in their
/// order, the names in lower case. This holds of every request whose method is
/// not empty, whose path begins with a slash, whose method, path and version
/// are words, whose headers are lines, and whose body does not end in a fill
/// byte, where the text is valid UTF-8 and fits the buffer.
pub proof fn lemma_parse_reads_request_text(
    method: Seq<u8>,
    path: Seq<u8>,
    version: Seq<u8>,
    headers: Seq<(Seq<u8>, Seq<u8>)>,
    body: Seq<u8>,
    fill: Seq<u8>,
)
    requires
        method.len() > 0,
        is_word(method),
        is_word(path),
        is_word(version),
        begins_with(path, ascii("/"@)),
        forall|i: int| 0 <= i < headers.len() ==> is_line(#[trigger] headers[i]),
        body.len() == 0 || body.last() != FILL,
        is_fill(fill),
        valid_utf8(request_text(method, path, version, headers, body)),
        request_text(method, path, version, headers, body).len() + fill.len()
            <= MAX_REQUEST_BYTES,
    ensures
        parsed(request_text(method, path, version, headers, body) + fill) == Ok::<
            RequestView,
            ErrorKind,
        >(
            RequestView {
                method: method_of(method),
                path,
                version,
                headers: with_lowered_names(headers),
                body,
            },
        ),
{
    reveal_strlit("\r\n\r\n");
    reveal_strlit("\r\n");
    reveal_strlit(" ");
    let space = ascii(" "@);
    let line_break = ascii("\r\n"@);
    let blank = ascii("\r\n\r\n"@);
    let first = method + space + path + space + version;
    let text = request_text(method, path, version, headers, body);
    let head = head_of(first, headers);
    let buffer = text + fill;

    lemma_head_and_lines(first, headers);
    assert(text =~= head + blank + body) by {
        assert(line_break + line_break =~= blank);
        assert(text == first + line_break + header_lines(headers) + line_break + body);
        assert(text == head + line_break + line_break + body);
    }
    assert(valid_utf8(buffer)) by {
        lemma_fill_is_utf8(fill);
        valid_utf8_concat(text, fill);
    }
    assert(text.last() != FILL) by {
        if body.len() == 0 {
            assert(text.last() == blank[3]);
        } else {
            assert(text.last() == body.last());
        }
    }
    lemma_without_fill_of_padded(text, fill);

    lemma_words_of_request_line(method, path, version);
    lemma_lines_of_head(first, headers);
    let end = head.len() as int;
    assert(text.subrange(end, end + 4) =~= blank);
    assert forall|j: int| 0 <= j < end implies !matches_at(text, blank, j) by {
        if matches_at(text, blank, j) {
            assert(text.subrange(j, j + 4)[0] == text[j]);
            assert(text.subrange(j, j + 4)[2] == text[j + 2]);
            assert(head[j] == 13u8);
            assert(text[j + 2] == head[j + 2]);
        }
    }
    lemma_first_match_is(text, blank, end);
    assert(text.subrange(0, end) =~= head);
    assert(text.subrange(end + 4, text.len() as int) =~= body);

    let lines = pieces(head, line_break);
    assert(lines[0] == first);
    assert(lines.subrange(1, lines.len() as int) =~= lines_of(headers));
    lemma_entries_of_lines(headers);
    let parts = pieces(first, space);
    assert(parts[0] == method && parts[1] == path && parts[2] == version);
    assert(parsed_head(head, body) == Ok::<RequestView, ErrorKind>(
        RequestView {
            method: method_of(method),
            path,
            version,
            headers: with_lowered_names(headers),
            body,
        },
    ));
}

/// A `GET` request for `/echo/` and a text, without an `Accept-Encoding`
/// header, is answered with status 200 and the text as the body: for every
/// text that holds no slash, space or carriage return, whatever the version
/// and the other headers, where the request is valid UTF-8 and fits the buffer.
pub proof fn lemma_echo_answers_with_the_text(
    text: Seq<u8>,
    version: Seq<u8>,
    headers: Seq<(Seq<u8>, Seq<u8>)>,
    fill: Seq<u8>,
    directory: Seq<char>,
)
    requires
        is_word(text),
        !text.contains(47u8),
        is_word(version),
        forall|i: int| 0 <= i < headers.len() ==> is_line(#[trigger] headers[i]),
        lookup(with_lowered_names(headers), ascii("Accept-Encoding"@)) is None,
        is_fill(fill),
        valid_utf8(
            request_text(
                ascii("GET"@),
                ascii("/echo/"@) + text,
                version,
                headers,
                Seq::empty(),
            ),
        ),
        request_text(
            ascii("GET"@),
            ascii("/echo/"@) + text,
            version,
            headers,
            Seq::empty(),
        ).len() + fill.len() <= MAX_REQUEST_BYTES,
    ensures
        planned(
            request_text(
                ascii("GET"@),
                ascii("/echo/"@) + text,
                version,
                headers,
                Seq::empty(),
            ) + fill,
            directory,
        ) == ActionView::Respond(content(ContentType::TextPlain, Encoding::Identity, text)),
{
    lemma_echo_path_is_a_word(text);
    lemma_get_is_a_word();
    let path = ascii("/echo/"@) + text;
    lemma_parse_reads_request_text(ascii("GET"@), path, version, headers, Seq::empty(), fill);
    let request = RequestView {
        method: Method::Get,
        path,
        version,
        headers: with_lowered_names(headers),
        body: Seq::empty(),
    };
    lemma_echo_sends_text_back(request, directory, text);
}

/// A `GET` request for `/echo/` and a text, with an `Accept-Encoding` header
/// that lists `gzip`, asks for the compression of exactly the text: for every
/// text that holds no slash, space or carriage return, whatever the version
/// and the other headers, where the request is valid UTF-8 and fits the buffer.
pub proof fn lemma_echo_asks_for_compression(
    text: Seq<u8>,
    version: Seq<u8>,
    headers: Seq<(Seq<u8>, Seq<u8>)>,
    accepted: Seq<u8>,
    fill: Seq<u8>,
    directory: Seq<char>,
)
    requires
        is_word(text),
        !text.contains(47u8),
        is_word(version),
        forall|i: int| 0 <= i < headers.len() ==> is_line(#[trigger] headers[i]),
        lookup(with_lowered_names(headers), ascii("Accept-Encoding"@)) == Some(accepted),
        lists_token(accepted, ascii("gzip"@)),
        is_fill(fill),
        valid_utf8(
            request_text(
                ascii("GET"@),
                ascii("/echo/"@) + text,
                version,
                headers,
                Seq::empty(),
            ),
        ),
        request_text(
            ascii("GET"@),
            ascii("/echo/"@) + text,
            version,
            headers,
            Seq::empty(),
        ).len() + fill.len() <= MAX_REQUEST_BYTES,
    ensures
        planned(
            request_text(
                ascii("GET"@),
                ascii("/echo/"@) + text,
                version,
                headers,
                Seq::empty(),
            ) + fill,
            directory,
        ) == ActionView::Compress(text),
{
    lemma_echo_path_is_a_word(text);
    lemma_get_is_a_word();
    let path = ascii("/echo/"@) + text;
    lemma_parse_reads_request_text(ascii("GET"@), path, version, headers, Seq::empty(), fill);
    let request = RequestView {
        method: Method::Get,
        path,
        version,
        headers: with_lowered_names(headers),
        body: Seq::empty(),
    };
    lemma_echo_compresses(request, directory, text, accepted, Seq::empty());
}

/// A `GET` request for `/user-agent` is answered with status 200 and, as the
/// body, the value of its `User-Agent` header without its whitespace: the
/// value itself where it holds none. This holds whatever the version and the
/// other headers, where the request is valid UTF-8 and fits the buffer.
pub proof fn lemma_user_agent_is_answered(
    version: Seq<u8>,
    headers: Seq<(Seq<u8>, Seq<u8>)>,
    value: Seq<u8>,
    fill: Seq<u8>,
    directory: Seq<char>,
)
    requires
        is_word(version),
        forall|i: int| 0 <= i < headers.len() ==> is_line(#[trigger] headers[i]),
        lookup(with_lowered_names(headers), ascii("User-Agent"@)) == Some(value),
        is_fill(fill),
        valid_utf8(
            request_text(ascii("GET"@), ascii("/user-agent"@), version, headers, Seq::empty()),
        ),
        request_text(ascii("GET"@), ascii("/user-agent"@), version, headers, Seq::empty()).len()
            + fill.len() <= MAX_REQUEST_BYTES,
    ensures
        planned(
            request_text(ascii("GET"@), ascii("/user-agent"@), version, headers, Seq::empty())
                + fill,
            directory,
        ) == ActionView::Respond(
            content(ContentType::TextPlain, Encoding::Identity, without_whitespace(value)),
        ),
        (forall|i: int| 0 <= i < value.len() ==> !is_whitespace(#[trigger] value[i]))
            ==> without_whitespace(value) == value,
{
    reveal_strlit("/user-agent");
    reveal_strlit("/echo/");
    reveal_strlit("/");
    let path = ascii("/user-agent"@);
    lemma_get_is_a_word();
    assert(path.subrange(0, 1) =~= ascii("/"@));
    assert(path.subrange(0, 11) =~= path);
    assert forall|byte: u8| byte == 32u8 || byte == 13u8 implies !path.contains(byte) by {
        if path.contains(byte) {
            let j = choose|j: int| 0 <= j < path.len() && path[j] == byte;
            assert(path[j] != byte);
        }
    }
    if begins_with(path, ascii("/echo/"@)) {
        assert(path.subrange(0, 6)[1] == path[1]);
    }
    lemma_parse_reads_request_text(ascii("GET"@), path, version, headers, Seq::empty(), fill);
    if forall|i: int| 0 <= i < value.len() ==> !is_whitespace(#[trigger] value[i]) {
        lemma_without_whitespace_keeps(value);
    }
}

/// `GET` and `POST` are words, and name the methods of their names.
pub proof fn lemma_get_is_a_word()
    ensures
        is_word(ascii("GET"@)),
        ascii("GET"@).len() > 0,
        method_of(ascii("GET"@)) == Method::Get,
        is_word(ascii("POST"@)),
        ascii("POST"@).len() > 0,
        method_of(ascii("POST"@)) == Method::Post,
{
    reveal_strlit("GET");
    reveal_strlit("POST");
    let get = ascii("GET"@);
    let post = ascii("POST"@);
    assert forall|byte: u8| byte == 32u8 || byte == 13u8 implies !get.contains(byte)
        && !post.contains(byte) by {
        if get.contains(byte) {
            let j = choose|j: int| 0 <= j < get.len() && get[j] == byte;
            assert(get[j] != byte);
        }
        if post.contains(byte) {
            let j = choose|j: int| 0 <= j < post.len() && post[j] == byte;
            assert(post[j] != byte);
        }
    }
}

/// `/files/` and a word make a word that begins with a slash.
pub proof fn lemma_file_path_is_a_word(name: Seq<u8>)
    requires
        is_word(name),
    ensures
        is_word(ascii("/files/"@) + name),
        begins_with(ascii("/files/"@) + name, ascii("/"@)),
{
    reveal_strlit("/files/");
    reveal_strlit("/");
    let prefix = ascii("/files/"@);
    let path = prefix + name;
    assert(path.subrange(0, 1) =~= ascii("/"@));
    assert forall|byte: u8| byte == 32u8 || byte == 13u8 implies !path.contains(byte) by {
        if path.contains(byte) {
            let j = choose|j: int| 0 <= j < path.len() && path[j] == byte;
            if j >= 7 {
                assert(name.contains(name[j - 7]));
            }
        }
    }
}

/// `/echo/` and a word make a word that begins with a slash.
pub proof fn lemma_echo_path_is_a_word(text: Seq<u8>)
    requires
        is_word(text),
    ensures
        is_word(ascii("/echo/"@) + text),
        begins_with(ascii("/echo/"@) + text, ascii("/"@)),
{
    reveal_strlit("/echo/");
    reveal_strlit("/");
    let prefix = ascii("/echo/"@);
    let path = prefix + text;
    assert(path.subrange(0, 1) =~= ascii("/"@));
    assert forall|byte: u8| byte == 32u8 || byte == 13u8 implies !path.contains(byte) by {
        if path.contains(byte) {
            let j = choose|j: int| 0 <= j < path.len() && path[j] == byte;
            if j >= 6 {
                assert(text.contains(text[j - 6]));
            }
        }
    }
}

} // verus!
