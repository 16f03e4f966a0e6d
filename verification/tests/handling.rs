use http_server::config::ServerConfig;
use http_server::handlers::{
    complete, handle_connection, handle_echo, handle_file, handle_request, handle_user_agent,
    Action, Outcome,
};
use http_server::request::{parse, Method, Request, MAX_REQUEST_BYTES};
use http_server::response::{Response, Status};

fn padded(text: &[u8]) -> Vec<u8> {
    let mut buffer = vec![0u8; MAX_REQUEST_BYTES];
    buffer[..text.len()].copy_from_slice(text);
    buffer
}

fn config() -> ServerConfig {
    ServerConfig::new("data".to_string())
}

fn plan(buffer: &[u8]) -> Action {
    handle_connection(buffer, &config())
}

fn answer(request: &[u8]) -> Response {
    ready(plan(&padded(request)))
}

fn ready(action: Action) -> Response {
    match action {
        Action::Respond(response) => response,
        other => panic!("outside work is asked for: {:?}", other),
    }
}

fn header_value(response: &Response, name: &[u8]) -> Option<Vec<u8>> {
    response
        .headers()
        .iter()
        .find(|header| header.name == name)
        .map(|header| header.value.clone())
}

fn serve(files: &mut Vec<(String, Vec<u8>, Vec<u8>)>, buffer: &[u8]) -> Response {
    let action = plan(buffer);
    let outcome = match &action {
        Action::Respond(_) => Outcome::Failed,
        Action::Compress(text) => {
            let mut bytes = b"packed:".to_vec();
            bytes.extend_from_slice(text);
            Outcome::Compressed(bytes)
        }
        Action::ReadFile(directory, name) => {
            match files.iter().find(|file| &file.0 == directory && &file.1 == name) {
                Some(file) => Outcome::Contents(file.2.clone()),
                None => Outcome::Missing,
            }
        }
        Action::WriteFile(directory, name, contents) => {
            files.retain(|file| &file.0 != directory || &file.1 != name);
            files.push((directory.clone(), name.clone(), contents.clone()));
            Outcome::Written
        }
    };
    complete(action, outcome)
}

#[test]
fn the_root_answers_200_with_nothing_else() {
    let response = answer(b"GET / HTTP/1.1\r\nHost: x\r\n\r\n");
    assert_eq!(response.to_bytes(), b"HTTP/1.1 200 OK\r\n\r\n".to_vec());
}

#[test]
fn echo_sends_the_text_back() {
    let response = answer(b"GET /echo/abc HTTP/1.1\r\n\r\n");
    assert_eq!(response.status(), Status::Okay);
    assert_eq!(response.body(), &b"abc".to_vec());
    assert_eq!(
        response.to_bytes(),
        b"HTTP/1.1 200 OK\r\nContent-Type: text/plain\r\nContent-Length: 3\r\n\r\nabc".to_vec()
    );
}

#[test]
fn echo_does_not_decode_the_text() {
    let response = answer(b"GET /echo/a%20b HTTP/1.1\r\n\r\n");
    assert_eq!(response.body(), &b"a%20b".to_vec());
}

#[test]
fn echo_with_gzip_asks_for_compression_of_the_text() {
    let action = plan(&padded(b"GET /echo/abc HTTP/1.1\r\nAccept-Encoding: gzip\r\n\r\n"));
    match &action {
        Action::Compress(text) => assert_eq!(text, &b"abc".to_vec()),
        other => panic!("no compression asked for: {:?}", other),
    }
    let packed = vec![0x1f, 0x8b, 0x08, 0x00, 0x00];
    let response = complete(action, Outcome::Compressed(packed.clone()));
    assert_eq!(response.status(), Status::Okay);
    assert_eq!(header_value(&response, b"Content-Type"), Some(b"text/plain".to_vec()));
    assert_eq!(header_value(&response, b"Content-Encoding"), Some(b"gzip".to_vec()));
    assert_eq!(header_value(&response, b"Content-Length"), Some(b"5".to_vec()));
    assert_eq!(response.body(), &packed);
}

#[test]
fn echo_with_other_encodings_is_sent_as_it_is() {
    let response = answer(b"GET /echo/abc HTTP/1.1\r\nAccept-Encoding: deflate, br\r\n\r\n");
    assert_eq!(header_value(&response, b"Content-Encoding"), None);
    assert_eq!(response.body(), &b"abc".to_vec());
}

#[test]
fn echo_finds_gzip_in_a_list() {
    let action =
        plan(&padded(b"GET /echo/abc HTTP/1.1\r\naccept-encoding: br, gzip, deflate\r\n\r\n"));
    assert!(matches!(action, Action::Compress(_)));
}

#[test]
fn a_failed_compression_is_a_server_error() {
    let action = plan(b"GET /echo/abc HTTP/1.1\r\nAccept-Encoding: gzip\r\n\r\n");
    let response = complete(action, Outcome::Failed);
    assert_eq!(response.to_bytes(), b"HTTP/1.1 500 Internal Server Error\r\n\r\n".to_vec());
}

#[test]
fn user_agent_is_sent_back() {
    let response =
        answer(b"GET /user-agent HTTP/1.1\r\nHost: localhost\r\nUser-Agent: foo/1.0\r\n\r\n");
    assert_eq!(response.status(), Status::Okay);
    assert_eq!(response.body(), &b"foo/1.0".to_vec());
    assert_eq!(
        response.to_bytes(),
        b"HTTP/1.1 200 OK\r\nContent-Type: text/plain\r\nContent-Length: 7\r\n\r\nfoo/1.0"
            .to_vec()
    );
}

#[test]
fn user_agent_loses_its_whitespace() {
    let response =
        answer(b"GET /user-agent HTTP/1.1\r\nUser-Agent: Mozilla/5.0 (X11; Linux)\tGecko\r\n\r\n");
    assert_eq!(response.body(), &b"Mozilla/5.0(X11;Linux)Gecko".to_vec());
    assert_eq!(header_value(&response, b"Content-Length"), Some(b"27".to_vec()));
}

#[test]
fn a_missing_user_agent_gives_an_empty_text() {
    let response = answer(b"GET /user-agent HTTP/1.1\r\n\r\n");
    assert_eq!(response.status(), Status::Okay);
    assert!(response.body().is_empty());
    assert_eq!(header_value(&response, b"Content-Length"), Some(b"0".to_vec()));
}

#[test]
fn a_file_is_read_back_as_it_was_written() {
    let mut files = Vec::new();
    let created = serve(
        &mut files,
        &padded(b"POST /files/test.txt HTTP/1.1\r\nContent-Length: 11\r\n\r\nhello\0world"),
    );
    assert_eq!(created.to_bytes(), b"HTTP/1.1 201 Created\r\n\r\n".to_vec());
    let read = serve(&mut files, &padded(b"GET /files/test.txt HTTP/1.1\r\n\r\n"));
    assert_eq!(read.status(), Status::Okay);
    assert_eq!(read.body(), &b"hello\0world".to_vec());
    assert_eq!(
        read.to_bytes(),
        b"HTTP/1.1 200 OK\r\nContent-Type: application/octet-stream\r\n\
          Content-Length: 11\r\n\r\nhello\0world"
            .to_vec()
    );
}

#[test]
fn a_second_write_replaces_the_first() {
    let mut files = Vec::new();
    serve(&mut files, &padded(b"POST /files/f HTTP/1.1\r\n\r\nlong first contents"));
    serve(&mut files, &padded(b"POST /files/f HTTP/1.1\r\n\r\nshort"));
    let read = serve(&mut files, &padded(b"GET /files/f HTTP/1.1\r\n\r\n"));
    assert_eq!(read.body(), &b"short".to_vec());
}

#[test]
fn a_missing_file_is_a_404_with_an_empty_body() {
    let mut files = Vec::new();
    let response = serve(&mut files, &padded(b"GET /files/missing.txt HTTP/1.1\r\n\r\n"));
    assert_eq!(response.status(), Status::NotFound);
    assert!(response.body().is_empty());
    assert_eq!(response.to_bytes(), b"HTTP/1.1 404 Not Found\r\n\r\n".to_vec());
}

#[test]
fn a_failed_read_or_write_is_a_server_error() {
    let read = plan(b"GET /files/f HTTP/1.1\r\n\r\n");
    assert_eq!(complete(read, Outcome::Failed).status(), Status::InternalServerError);
    let write = plan(b"POST /files/f HTTP/1.1\r\n\r\nx");
    assert_eq!(complete(write, Outcome::Failed).status(), Status::InternalServerError);
}

#[test]
fn an_outcome_of_other_work_is_a_server_error() {
    let read = plan(b"GET /files/f HTTP/1.1\r\n\r\n");
    assert_eq!(complete(read, Outcome::Written).status(), Status::InternalServerError);
    let write = plan(b"POST /files/f HTTP/1.1\r\n\r\nx");
    assert_eq!(
        complete(write, Outcome::Contents(b"x".to_vec())).status(),
        Status::InternalServerError
    );
    let pack = plan(b"GET /echo/x HTTP/1.1\r\nAccept-Encoding: gzip\r\n\r\n");
    assert_eq!(complete(pack, Outcome::Missing).status(), Status::InternalServerError);
}

#[test]
fn a_ready_response_is_not_changed_by_an_outcome() {
    let action = plan(b"GET /echo/x HTTP/1.1\r\n\r\n");
    let response = complete(action, Outcome::Missing);
    assert_eq!(response.status(), Status::Okay);
    assert_eq!(response.body(), &b"x".to_vec());
}

#[test]
fn the_written_body_loses_the_fill_at_its_end() {
    let request = Request {
        method: Method::Post,
        path: b"/files/f".to_vec(),
        version: b"HTTP/1.1".to_vec(),
        headers: Vec::new(),
        body: b"data\0\0\0".to_vec(),
    };
    match handle_file(&request, b"f".to_vec(), &config()) {
        Action::WriteFile(directory, name, contents) => {
            assert_eq!(directory, "data");
            assert_eq!(name, b"f".to_vec());
            assert_eq!(contents, b"data".to_vec());
        }
        other => panic!("no write asked for: {:?}", other),
    }
}

#[test]
fn the_file_route_reads_on_get() {
    let request = parse(b"GET /files/a.bin HTTP/1.1\r\n\r\n").unwrap();
    match handle_file(&request, b"a.bin".to_vec(), &config()) {
        Action::ReadFile(directory, name) => {
            assert_eq!(directory, "data");
            assert_eq!(name, b"a.bin".to_vec());
        }
        other => panic!("no read asked for: {:?}", other),
    }
}

#[test]
fn the_file_route_refuses_other_methods() {
    let request = Request {
        method: Method::Other,
        path: b"/files/f".to_vec(),
        version: Vec::new(),
        headers: Vec::new(),
        body: Vec::new(),
    };
    assert_eq!(ready(handle_file(&request, b"f".to_vec(), &config())).status(), Status::NotFound);
}

#[test]
fn an_unknown_path_is_a_404() {
    let response = answer(b"GET /nope HTTP/1.1\r\n\r\n");
    assert_eq!(response.to_bytes(), b"HTTP/1.1 404 Not Found\r\n\r\n".to_vec());
}

#[test]
fn an_unknown_method_is_a_404() {
    let response = answer(b"DELETE /files/f HTTP/1.1\r\n\r\n");
    assert_eq!(response.status(), Status::NotFound);
    assert!(response.body().is_empty());
}

#[test]
fn a_request_that_does_not_parse_is_a_404() {
    assert_eq!(answer(b"GET /").status(), Status::NotFound);
    assert_eq!(ready(plan(b"\xff\xfe\r\n\r\n")).status(), Status::NotFound);
    assert_eq!(ready(plan(&vec![b'a'; 300])).status(), Status::NotFound);
}

#[test]
fn handle_echo_reads_the_accept_encoding_header() {
    let plain = parse(b"GET /echo/x HTTP/1.1\r\n\r\n").unwrap();
    assert_eq!(ready(handle_echo(&plain, b"x".to_vec())).body(), &b"x".to_vec());
    let packed = parse(b"GET /echo/x HTTP/1.1\r\nAccept-Encoding: gzip\r\n\r\n").unwrap();
    assert!(matches!(handle_echo(&packed, b"x".to_vec()), Action::Compress(_)));
}

#[test]
fn handle_user_agent_takes_the_last_header_line() {
    let request =
        parse(b"GET /user-agent HTTP/1.1\r\nUser-Agent: one\r\nuser-agent: t w o\r\n\r\n").unwrap();
    assert_eq!(handle_user_agent(&request).body(), &b"two".to_vec());
}

#[test]
fn handle_request_follows_the_route() {
    let request = parse(b"GET /echo/hello/there HTTP/1.1\r\n\r\n").unwrap();
    assert_eq!(ready(handle_request(&request, &config())).body(), &b"hello".to_vec());
}

#[test]
fn two_connections_get_their_own_responses() {
    let first = plan(&padded(b"GET /echo/a HTTP/1.1\r\n\r\n"));
    let second = plan(&padded(b"GET /echo/b HTTP/1.1\r\n\r\n"));
    assert_eq!(ready(second).body(), &b"b".to_vec());
    assert_eq!(ready(first).body(), &b"a".to_vec());
}

#[test]
fn the_file_actions_name_the_storage_directory() {
    let config = ServerConfig::from_args(&[
        "server".to_string(),
        "--directory".to_string(),
        "/srv/files".to_string(),
    ].to_vec());
    match handle_connection(b"GET /files/a HTTP/1.1\r\n\r\n", &config) {
        Action::ReadFile(directory, name) => {
            assert_eq!(directory, "/srv/files");
            assert_eq!(name, b"a".to_vec());
        }
        other => panic!("no read asked for: {:?}", other),
    }
    match handle_connection(b"POST /files/a HTTP/1.1\r\n\r\nxyz", &config) {
        Action::WriteFile(directory, name, contents) => {
            assert_eq!(directory, "/srv/files");
            assert_eq!(name, b"a".to_vec());
            assert_eq!(contents, b"xyz".to_vec());
        }
        other => panic!("no write asked for: {:?}", other),
    }
}

#[test]
fn files_of_one_name_in_two_directories_are_two_files() {
    let first = ServerConfig::new("one".to_string());
    let second = ServerConfig::new("two".to_string());
    let write = handle_connection(b"POST /files/a HTTP/1.1\r\n\r\nxyz", &first);
    let read = handle_connection(b"GET /files/a HTTP/1.1\r\n\r\n", &second);
    match (write, read) {
        (Action::WriteFile(written, _, _), Action::ReadFile(read, _)) => {
            assert_eq!(written, "one");
            assert_eq!(read, "two");
        }
        other => panic!("no write and read asked for: {:?}", other),
    }
}

#[test]
fn a_name_of_two_dots_is_passed_on() {
    match plan(b"GET /files/.. HTTP/1.1\r\n\r\n") {
        Action::ReadFile(_, name) => assert_eq!(name, b"..".to_vec()),
        other => panic!("no read asked for: {:?}", other),
    }
}

#[test]
fn interleaved_connections_do_not_mix() {
    let first = plan(&padded(b"GET /echo/a HTTP/1.1\r\nAccept-Encoding: gzip\r\n\r\n"));
    let second = plan(&padded(b"GET /echo/b HTTP/1.1\r\nAccept-Encoding: gzip\r\n\r\n"));
    let second = complete(second, Outcome::Compressed(b"packed b".to_vec()));
    let first = complete(first, Outcome::Compressed(b"packed a".to_vec()));
    assert_eq!(first.body(), &b"packed a".to_vec());
    assert_eq!(second.body(), &b"packed b".to_vec());
}
