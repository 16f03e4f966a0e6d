use crate::bytes::{
    ascii, before, begins_with, decimal, lemma_before_is_whole, literal, strip_whitespace,
    trim_fill, without_fill, without_whitespace,
};
use crate::config::ServerConfig;
use crate::encoding::{lists_token, negotiate, negotiated, token_at, Encoding};
use crate::error::{error_status, ErrorKind};
use crate::header::lookup;
use crate::request::{parse, parsed, Method, Request, RequestView};
use crate::response::{
    bare, content, content_headers, lemma_content_headers, lemma_wire_of_bare, wire, ContentType,
    Response, ResponseView, Status,
};
use crate::router::{route, routed, Route, RouteView};
use vstd::prelude::*;
use vstd::slice::slice_to_vec;

verus! {

/// What is to be done for a request: send a response that is ready, or do a
/// piece of outside work first, whose outcome `complete` turns into the response.
#[derive(Debug)]
pub enum Action {
    /// Send this response.
    Respond(Response),
    /// Compress this text with gzip.
    Compress(Vec<u8>),
    /// Read the file of this name in this directory.
    ReadFile(String, Vec<u8>),
    /// Write the file of this name in this directory, with these contents in
    /// place of any it had.
    WriteFile(String, Vec<u8>, Vec<u8>),
}

/// An action as plain values.
pub enum ActionView {
    Respond(ResponseView),
    Compress(Seq<u8>),
    ReadFile(Seq<char>, Seq<u8>),
    WriteFile(Seq<char>, Seq<u8>, Seq<u8>),
}

impl View for Action {
    type V = ActionView;

    open spec fn view(&self) -> ActionView {
        match self {
            Action::Respond(response) => ActionView::Respond(response@),
            Action::Compress(text) => ActionView::Compress(text@),
            Action::ReadFile(directory, name) => ActionView::ReadFile(directory@, name@),
            Action::WriteFile(directory, name, contents) => ActionView::WriteFile(
                directory@,
                name@,
                contents@,
            ),
        }
    }
}

/// How a piece of outside work ended.
#[derive(Debug)]
pub enum Outcome {
    /// The text was compressed to these bytes.
    Compressed(Vec<u8>),
    /// The file holds these bytes.
    Contents(Vec<u8>),
    /// There is no such file.
    Missing,
    /// The file was written.
    Written,
    /// The work failed.
    Failed,
}

/// An outcome as plain values.
pub enum OutcomeView {
    Compressed(Seq<u8>),
    Contents(Seq<u8>),
    Missing,
    Written,
    Failed,
}

impl View for Outcome {
    type V = OutcomeView;

    open spec fn view(&self) -> OutcomeView {
        match self {
            Outcome::Compressed(bytes) => OutcomeView::Compressed(bytes@),
            Outcome::Contents(bytes) => OutcomeView::Contents(bytes@),
            Outcome::Missing => OutcomeView::Missing,
            Outcome::Written => OutcomeView::Written,
            Outcome::Failed => OutcomeView::Failed,
        }
    }
}

/// What the echo route does with the text it captured: where the request
/// accepts gzip the text is to be compressed, else it is sent back as it is.
pub open spec fn echo_action(request: RequestView, text: Seq<u8>) -> ActionView {
    match negotiated(request.header(ascii("Accept-Encoding"@))) {
        Encoding::Gzip => ActionView::Compress(text),
        Encoding::Identity => ActionView::Respond(
            content(ContentType::TextPlain, Encoding::Identity, text),
        ),
    }
}

/// The response of the user-agent route: the value of the `User-Agent` header
/// with all whitespace taken out, and an empty text where there is no such
/// header.
pub open spec fn user_agent_response(request: RequestView) -> ResponseView {
    content(
        ContentType::TextPlain,
        Encoding::Identity,
        match request.header(ascii("User-Agent"@)) {
            Some(value) => without_whitespace(value),
            None => Seq::empty(),
        },
    )
}

/// What the file route does with the name it captured: a `GET` reads the file
/// of that name in the storage directory, a `POST` writes the body, without the
/// fill bytes at its end, to that file.
pub open spec fn file_action(
    request: RequestView,
    name: Seq<u8>,
    directory: Seq<char>,
) -> ActionView {
    match request.method {
        Method::Get => ActionView::ReadFile(directory, name),
        Method::Post => ActionView::WriteFile(directory, name, without_fill(request.body)),
        Method::Other => ActionView::Respond(bare(Status::NotFound)),
    }
}

/// The response that reports an error: a status and nothing else.
pub open spec fn error_response(kind: ErrorKind) -> ResponseView {
    bare(error_status(kind))
}

/// What is to be done for a request, by a server whose storage directory is
/// `directory`.
pub open spec fn handled(request: RequestView, directory: Seq<char>) -> ActionView {
    match routed(request.method, request.path) {
        Ok(RouteView::Root) => ActionView::Respond(bare(Status::Okay)),
        Ok(RouteView::Echo(text)) => echo_action(request, text),
        Ok(RouteView::UserAgent) => ActionView::Respond(user_agent_response(request)),
        Ok(RouteView::FileGet(name)) => file_action(request, name, directory),
        Ok(RouteView::FilePost(name)) => file_action(request, name, directory),
        Err(kind) => ActionView::Respond(error_response(kind)),
    }
}

/// What is to be done for the buffer that was read from a connection, by a
/// server whose storage directory is `directory`.
pub open spec fn planned(buffer: Seq<u8>, directory: Seq<char>) -> ActionView {
    match parsed(buffer) {
        Ok(request) => handled(request, directory),
        Err(kind) => ActionView::Respond(error_response(kind)),
    }
}

/// The response once the outside work of an action has ended. Compressed text
/// is sent as gzip; the contents of a file as a stream of bytes; a missing file
/// is not found; a written file is created. An outcome that is a failure, or
/// that is not one of the action's, is a server error.
pub open spec fn completed(action: ActionView, outcome: OutcomeView) -> ResponseView {
    match action {
        ActionView::Respond(response) => response,
        ActionView::Compress(_) => match outcome {
            OutcomeView::Compressed(bytes) => content(
                ContentType::TextPlain,
                Encoding::Gzip,
                bytes,
            ),
            _ => error_response(ErrorKind::Io),
        },
        ActionView::ReadFile(_, _) => match outcome {
            OutcomeView::Contents(bytes) => content(
                ContentType::OctetStream,
                Encoding::Identity,
                bytes,
            ),
            OutcomeView::Missing => error_response(ErrorKind::FileNotFound),
            _ => error_response(ErrorKind::Io),
        },
        ActionView::WriteFile(_, _, _) => match outcome {
            OutcomeView::Written => bare(Status::Created),
            _ => error_response(ErrorKind::Io),
        },
    }
}

/// The response that reports an error.
pub fn respond_error(kind: ErrorKind) -> (response: Response)
    ensures
        response@ == error_response(kind),
{
    Response::empty(kind.status())
}

/// The echo route: what is to be done with the text that the route captured.
pub fn handle_echo(request: &Request, text: Vec<u8>) -> (action: Action)
    ensures
        action@ == echo_action(request@, text@),
{
    proof {
        reveal_strlit("Accept-Encoding");
    }
    match negotiate(request.header(literal("Accept-Encoding"))) {
        Encoding::Gzip => Action::Compress(text),
        Encoding::Identity => Action::Respond(
            Response::with_body(ContentType::TextPlain, Encoding::Identity, text),
        ),
    }
}

/// The user-agent route: the response that tells the client how it named itself.
pub fn handle_user_agent(request: &Request) -> (response: Response)
    ensures
        response@ == user_agent_response(request@),
{
    proof {
        reveal_strlit("User-Agent");
    }
    let body = match request.header(literal("User-Agent")) {
        Some(value) => strip_whitespace(value.as_slice()),
        None => Vec::new(),
    };
    Response::with_body(ContentType::TextPlain, Encoding::Identity, body)
}

/// The file route: what is to be done with the file name that the route
/// captured, in the storage directory of the configuration. The name is used
/// as it is; `..` is not refused.
pub fn handle_file(request: &Request, name: Vec<u8>, config: &ServerConfig) -> (action: Action)
    ensures
        action@ == file_action(request@, name@, config@),
{
    match request.method {
        Method::Get => Action::ReadFile(config.storage_directory().clone(), name),
        Method::Post => Action::WriteFile(
            config.storage_directory().clone(),
            name,
            slice_to_vec(trim_fill(request.body.as_slice())),
        ),
        Method::Other => Action::Respond(Response::empty(Status::NotFound)),
    }
}

/// What is to be done for a request.
pub fn handle_request(request: &Request, config: &ServerConfig) -> (action: Action)
    ensures
        action@ == handled(request@, config@),
{
    match route(request.method, request.path.as_slice()) {
        Ok(Route::Root) => Action::Respond(Response::empty(Status::Okay)),
        Ok(Route::Echo(text)) => handle_echo(request, text),
        Ok(Route::UserAgent) => Action::Respond(handle_user_agent(request)),
        Ok(Route::FileGet(name)) => handle_file(request, name, config),
        Ok(Route::FilePost(name)) => handle_file(request, name, config),
        Err(kind) => Action::Respond(respond_error(kind)),
    }
}

/// What is to be done for the buffer that was read from a connection.
pub fn handle_connection(buffer: &[u8], config: &ServerConfig) -> (action: Action)
    ensures
        action@ == planned(buffer@, config@),
{
    match parse(buffer) {
        Ok(request) => handle_request(&request, config),
        Err(kind) => Action::Respond(respond_error(kind)),
    }
}

/// The response once the outside work of an action has ended.
pub fn complete(action: Action, outcome: Outcome) -> (response: Response)
    ensures
        response@ == completed(action@, outcome@),
{
    match action {
        Action::Respond(response) => response,
        Action::Compress(_) => match outcome {
            Outcome::Compressed(bytes) => Response::with_body(
                ContentType::TextPlain,
                Encoding::Gzip,
                bytes,
            ),
            _ => respond_error(ErrorKind::Io),
        },
        Action::ReadFile(_, _) => match outcome {
            Outcome::Contents(bytes) => Response::with_body(
                ContentType::OctetStream,
                Encoding::Identity,
                bytes,
            ),
            Outcome::Missing => respond_error(ErrorKind::FileNotFound),
            _ => respond_error(ErrorKind::Io),
        },
        Action::WriteFile(_, _, _) => match outcome {
            Outcome::Written => Response::empty(Status::Created),
            _ => respond_error(ErrorKind::Io),
        },
    }
}

/// A `GET` of `/echo/` and a text, in a request without an `Accept-Encoding`
/// header, is answered at once: with status 200 and, as the body, the text up
/// to its first slash, which is all of it where it holds no slash.
pub proof fn lemma_echo_sends_text_back(
    request: RequestView,
    directory: Seq<char>,
    text: Seq<u8>,
)
    requires
        request.method == Method::Get,
        request.path == ascii("/echo/"@) + text,
        request.header(ascii("Accept-Encoding"@)) is None,
    ensures
        handled(request, directory) == ActionView::Respond(
            content(ContentType::TextPlain, Encoding::Identity, before(text, ascii("/"@))),
        ),
        !text.contains(47u8) ==> handled(request, directory) == ActionView::Respond(
            ResponseView {
                status: Status::Okay,
                headers: content_headers(ContentType::TextPlain, Encoding::Identity, text.len()),
                body: text,
            },
        ),
{
    lemma_echo_route(request.path, text);
    if !text.contains(47u8) {
        reveal_strlit("/");
        lemma_before_is_whole(text, ascii("/"@));
    }
}

/// A path made of `/echo/` and a text takes the echo route, which captures the
/// text up to its first slash.
pub proof fn lemma_echo_route(path: Seq<u8>, text: Seq<u8>)
    requires
        path == ascii("/echo/"@) + text,
    ensures
        routed(Method::Get, path) == Ok::<RouteView, ErrorKind>(
            RouteView::Echo(before(text, ascii("/"@))),
        ),
{
    reveal_strlit("/");
    reveal_strlit("/echo/");
    let prefix = ascii("/echo/"@);
    assert(path.subrange(0, prefix.len() as int) =~= prefix);
    assert(path.subrange(prefix.len() as int, path.len() as int) =~= text);
}

/// A value in which `gzip` is the only token lists the token `gzip`.
pub proof fn lemma_gzip_alone_is_listed()
    ensures
        lists_token(ascii("gzip"@), ascii("gzip"@)),
{
    let value = ascii("gzip"@);
    assert(value.subrange(0, value.len() as int) =~= value);
    assert(token_at(value, value, 0));
}

/// A `GET` of `/echo/` and a text, in a request whose `Accept-Encoding` header
/// lists `gzip`, asks for the compression of the text. Whatever bytes the
/// compression gives, the response has status 200, those bytes as its body,
/// their number as its `Content-Length`, and `gzip` as its `Content-Encoding`.
pub proof fn lemma_echo_compresses(
    request: RequestView,
    directory: Seq<char>,
    text: Seq<u8>,
    accepted: Seq<u8>,
    packed: Seq<u8>,
)
    requires
        request.method == Method::Get,
        request.path == ascii("/echo/"@) + text,
        request.header(ascii("Accept-Encoding"@)) == Some(accepted),
        lists_token(accepted, ascii("gzip"@)),
    ensures
        handled(request, directory) == ActionView::Compress(before(text, ascii("/"@))),
        !text.contains(47u8) ==> handled(request, directory) == ActionView::Compress(text),
        ({
            let response = completed(
                handled(request, directory),
                OutcomeView::Compressed(packed),
            );
            &&& response.status == Status::Okay
            &&& response.body == packed
            &&& lookup(response.headers, ascii("Content-Encoding"@)) == Some(ascii("gzip"@))
            &&& lookup(response.headers, ascii("Content-Length"@)) == Some(decimal(packed.len()))
            &&& lookup(response.headers, ascii("Content-Type"@)) == Some(ascii("text/plain"@))
        }),
{
    lemma_echo_route(request.path, text);
    if !text.contains(47u8) {
        reveal_strlit("/");
        lemma_before_is_whole(text, ascii("/"@));
    }
    lemma_content_headers(ContentType::TextPlain, Encoding::Gzip, packed.len());
}

/// A request that no route takes is answered with status 404 and nothing else.
pub proof fn lemma_unrouted_is_not_found(request: RequestView, directory: Seq<char>)
    requires
        routed(request.method, request.path) is Err,
    ensures
        handled(request, directory) == ActionView::Respond(bare(Status::NotFound)),
{
}

/// A `GET` of a path that is not `/` and begins with none of `/echo/`,
/// `/user-agent` and `/files/` is answered with status 404 and nothing else.
pub proof fn lemma_unknown_path_is_not_found(request: RequestView, directory: Seq<char>)
    requires
        request.method == Method::Get,
        request.path != ascii("/"@),
        !begins_with(request.path, ascii("/echo/"@)),
        !begins_with(request.path, ascii("/user-agent"@)),
        !begins_with(request.path, ascii("/files/"@)),
    ensures
        handled(request, directory) == ActionView::Respond(bare(Status::NotFound)),
        wire(bare(Status::NotFound)) == ascii("HTTP/1.1 404 Not Found\r\n\r\n"@),
{
    lemma_wire_of_bare();
}

/// A buffer that does not parse is answered with status 404 and nothing else.
pub proof fn lemma_unparsed_is_not_found(buffer: Seq<u8>, directory: Seq<char>)
    requires
        parsed(buffer) is Err,
    ensures
        planned(buffer, directory) == ActionView::Respond(bare(Status::NotFound)),
{
}

} // verus!
