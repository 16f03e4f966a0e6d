use crate::bytes::{ascii, before, FILL};
use crate::encoding::Encoding;
use crate::exchange::{
    is_fill, is_word, lemma_file_path_is_a_word, lemma_get_is_a_word,
    lemma_parse_reads_request_text, request_text, with_lowered_names,
};
use crate::handlers::{completed, handled, planned, ActionView, OutcomeView};
use crate::request::{Method, RequestView, MAX_REQUEST_BYTES};
use crate::response::{bare, content, ContentType, ResponseView, Status};
use crate::router::lemma_file_route;
use vstd::prelude::*;
use vstd::utf8::valid_utf8;

verus! {

/// How an action ends on a disk that holds `files`, contents by directory and
/// name, and never fails: a file that is there is read, one that is not is
/// missing, and any file can be written. Work that is none of the disk's fails.
pub open spec fn outcome_in(
    files: Map<(Seq<char>, Seq<u8>), Seq<u8>>,
    action: ActionView,
) -> OutcomeView {
    match action {
        ActionView::ReadFile(directory, name) => if files.contains_key((directory, name)) {
            OutcomeView::Contents(files[(directory, name)])
        } else {
            OutcomeView::Missing
        },
        ActionView::WriteFile(_, _, _) => OutcomeView::Written,
        _ => OutcomeView::Failed,
    }
}

/// What the disk holds after an action: a write puts its contents in the place
/// of the file's, and nothing else changes anything.
pub open spec fn files_after(
    files: Map<(Seq<char>, Seq<u8>), Seq<u8>>,
    action: ActionView,
) -> Map<(Seq<char>, Seq<u8>), Seq<u8>> {
    match action {
        ActionView::WriteFile(directory, name, contents) => files.insert(
            (directory, name),
            contents,
        ),
        _ => files,
    }
}

/// The response to a request that a server with the storage directory
/// `directory` serves from a disk that holds `files`.
pub open spec fn served(
    files: Map<(Seq<char>, Seq<u8>), Seq<u8>>,
    directory: Seq<char>,
    request: RequestView,
) -> ResponseView {
    completed(handled(request, directory), outcome_in(files, handled(request, directory)))
}

/// What is written is read back: after a `POST` of a body that does not end in
/// a fill byte to `/files/` and a name, which is answered with 201, a `GET` of
/// the same path is answered with status 200 and exactly that body.
pub proof fn lemma_written_is_read_back(
    files: Map<(Seq<char>, Seq<u8>), Seq<u8>>,
    directory: Seq<char>,
    name: Seq<u8>,
    post: RequestView,
    get: RequestView,
)
    requires
        post.method == Method::Post,
        get.method == Method::Get,
        post.path == ascii("/files/"@) + name,
        get.path == post.path,
        post.body.len() == 0 || post.body.last() != FILL,
    ensures
        served(files, directory, post) == bare(Status::Created),
        served(files_after(files, handled(post, directory)), directory, get) == content(
            ContentType::OctetStream,
            Encoding::Identity,
            post.body,
        ),
        served(files_after(files, handled(post, directory)), directory, get).status == Status::Okay,
        served(files_after(files, handled(post, directory)), directory, get).body == post.body,
{
    lemma_file_route(post.path, name);
}

/// A `GET` of `/files/` and a name that no file has is answered with status
/// 404 and nothing else.
pub proof fn lemma_missing_file_is_not_found(
    files: Map<(Seq<char>, Seq<u8>), Seq<u8>>,
    directory: Seq<char>,
    name: Seq<u8>,
    get: RequestView,
)
    requires
        get.method == Method::Get,
        get.path == ascii("/files/"@) + name,
        !files.contains_key((directory, before(name, ascii("/"@)))),
    ensures
        served(files, directory, get) == bare(Status::NotFound),
{
    lemma_file_route(get.path, name);
}

/// A write does not touch the files of other names.
pub proof fn lemma_write_keeps_other_files(
    files: Map<(Seq<char>, Seq<u8>), Seq<u8>>,
    directory: Seq<char>,
    name: Seq<u8>,
    contents: Seq<u8>,
    other: (Seq<char>, Seq<u8>),
)
    requires
        other != (directory, name),
    ensures
        files_after(files, ActionView::WriteFile(directory, name, contents)).contains_key(other)
            == files.contains_key(other),
        files.contains_key(other) ==> files_after(
            files,
            ActionView::WriteFile(directory, name, contents),
        )[other] == files[other],
{
}

/// The response to the request in a buffer that a server with the storage
/// directory `directory` serves from a disk that holds `files`.
pub open spec fn answered(
    files: Map<(Seq<char>, Seq<u8>), Seq<u8>>,
    directory: Seq<char>,
    buffer: Seq<u8>,
) -> ResponseView {
    completed(planned(buffer, directory), outcome_in(files, planned(buffer, directory)))
}

/// What is written over a connection is read back over another: after a `POST`
/// request to `/files/` and a name with a body, which is answered with 201, a
/// `GET` request for the same path is answered with status 200 and exactly that
/// body. This holds of every name that holds no space or carriage return, and
/// every body that does not end in a fill byte, where the requests are valid
/// UTF-8 and fit the buffer.
pub proof fn lemma_posted_file_is_got(
    files: Map<(Seq<char>, Seq<u8>), Seq<u8>>,
    directory: Seq<char>,
    name: Seq<u8>,
    contents: Seq<u8>,
    version: Seq<u8>,
    fill_after_post: Seq<u8>,
    fill_after_get: Seq<u8>,
)
    requires
        is_word(name),
        is_word(version),
        contents.len() == 0 || contents.last() != FILL,
        is_fill(fill_after_post),
        is_fill(fill_after_get),
        valid_utf8(
            request_text(
                ascii("POST"@),
                ascii("/files/"@) + name,
                version,
                Seq::empty(),
                contents,
            ),
        ),
        valid_utf8(
            request_text(
                ascii("GET"@),
                ascii("/files/"@) + name,
                version,
                Seq::empty(),
                Seq::empty(),
            ),
        ),
        request_text(
            ascii("POST"@),
            ascii("/files/"@) + name,
            version,
            Seq::empty(),
            contents,
        ).len() + fill_after_post.len() <= MAX_REQUEST_BYTES,
        request_text(
            ascii("GET"@),
            ascii("/files/"@) + name,
            version,
            Seq::empty(),
            Seq::empty(),
        ).len() + fill_after_get.len() <= MAX_REQUEST_BYTES,
    ensures
        ({
            let post = request_text(
                ascii("POST"@),
                ascii("/files/"@) + name,
                version,
                Seq::empty(),
                contents,
            ) + fill_after_post;
            let get = request_text(
                ascii("GET"@),
                ascii("/files/"@) + name,
                version,
                Seq::empty(),
                Seq::empty(),
            ) + fill_after_get;
            &&& answered(files, directory, post) == bare(Status::Created)
            &&& answered(files_after(files, planned(post, directory)), directory, get) == content(
                ContentType::OctetStream,
                Encoding::Identity,
                contents,
            )
        }),
{
    let path = ascii("/files/"@) + name;
    lemma_get_is_a_word();
    lemma_file_path_is_a_word(name);
    lemma_parse_reads_request_text(
        ascii("POST"@),
        path,
        version,
        Seq::empty(),
        contents,
        fill_after_post,
    );
    lemma_parse_reads_request_text(
        ascii("GET"@),
        path,
        version,
        Seq::empty(),
        Seq::empty(),
        fill_after_get,
    );
    let post = RequestView {
        method: Method::Post,
        path,
        version,
        headers: with_lowered_names(Seq::empty()),
        body: contents,
    };
    let get = RequestView {
        method: Method::Get,
        path,
        version,
        headers: with_lowered_names(Seq::empty()),
        body: Seq::empty(),
    };
    lemma_written_is_read_back(files, directory, name, post, get);
}

/// A request that is answered without outside work gets the same answer
/// whatever the disk holds, and leaves the disk as it is: nothing that another
/// connection writes reaches it.
pub proof fn lemma_ready_answer_ignores_the_disk(
    files: Map<(Seq<char>, Seq<u8>), Seq<u8>>,
    other_files: Map<(Seq<char>, Seq<u8>), Seq<u8>>,
    directory: Seq<char>,
    buffer: Seq<u8>,
)
    requires
        planned(buffer, directory) is Respond,
    ensures
        answered(files, directory, buffer) == answered(other_files, directory, buffer),
        answered(files, directory, buffer) == planned(buffer, directory)->Respond_0,
        files_after(files, planned(buffer, directory)) == files,
{
}

} // verus!
