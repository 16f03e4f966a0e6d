use http_server::encoding::Encoding;
use http_server::error::ErrorKind;
use http_server::response::{ContentType, Response, Status};

#[test]
fn a_bare_response_is_its_status_line_and_an_empty_line() {
    assert_eq!(Response::empty(Status::Okay).to_bytes(), b"HTTP/1.1 200 OK\r\n\r\n".to_vec());
    assert_eq!(
        Response::empty(Status::Created).to_bytes(),
        b"HTTP/1.1 201 Created\r\n\r\n".to_vec()
    );
    assert_eq!(
        Response::empty(Status::NotFound).to_bytes(),
        b"HTTP/1.1 404 Not Found\r\n\r\n".to_vec()
    );
    assert_eq!(
        Response::empty(Status::InternalServerError).to_bytes(),
        b"HTTP/1.1 500 Internal Server Error\r\n\r\n".to_vec()
    );
}

#[test]
fn a_text_response_carries_type_and_length() {
    let response =
        Response::with_body(ContentType::TextPlain, Encoding::Identity, b"abc".to_vec());
    assert_eq!(response.status(), Status::Okay);
    assert_eq!(response.body(), &b"abc".to_vec());
    assert_eq!(
        response.to_bytes(),
        b"HTTP/1.1 200 OK\r\nContent-Type: text/plain\r\nContent-Length: 3\r\n\r\nabc".to_vec()
    );
}

#[test]
fn a_compressed_response_names_its_encoding_before_its_length() {
    let body = vec![0x1f, 0x8b, 0x08, 0x00, 0xff, 0x00];
    let response = Response::with_body(ContentType::TextPlain, Encoding::Gzip, body.clone());
    let headers = response.headers();
    assert_eq!(headers.len(), 3);
    assert_eq!(headers[0].name, b"Content-Type".to_vec());
    assert_eq!(headers[0].value, b"text/plain".to_vec());
    assert_eq!(headers[1].name, b"Content-Encoding".to_vec());
    assert_eq!(headers[1].value, b"gzip".to_vec());
    assert_eq!(headers[2].name, b"Content-Length".to_vec());
    assert_eq!(headers[2].value, b"6".to_vec());
    let mut wire =
        b"HTTP/1.1 200 OK\r\nContent-Type: text/plain\r\nContent-Encoding: gzip\r\n\
          Content-Length: 6\r\n\r\n"
            .to_vec();
    wire.extend_from_slice(&body);
    assert_eq!(response.to_bytes(), wire);
}

#[test]
fn a_binary_body_goes_out_byte_for_byte() {
    let body: Vec<u8> = (0..=255u8).collect();
    let response =
        Response::with_body(ContentType::OctetStream, Encoding::Identity, body.clone());
    let mut wire =
        b"HTTP/1.1 200 OK\r\nContent-Type: application/octet-stream\r\nContent-Length: 256\r\n\r\n"
            .to_vec();
    wire.extend_from_slice(&body);
    assert_eq!(response.to_bytes(), wire);
}

#[test]
fn an_empty_body_has_length_zero() {
    let response = Response::with_body(ContentType::TextPlain, Encoding::Identity, Vec::new());
    assert_eq!(
        response.to_bytes(),
        b"HTTP/1.1 200 OK\r\nContent-Type: text/plain\r\nContent-Length: 0\r\n\r\n".to_vec()
    );
}

#[test]
fn status_codes_and_reasons() {
    assert_eq!(Status::Okay.code(), 200);
    assert_eq!(Status::Created.code(), 201);
    assert_eq!(Status::NotFound.code(), 404);
    assert_eq!(Status::InternalServerError.code(), 500);
    assert_eq!(Status::Okay.reason(), "OK");
    assert_eq!(Status::Created.reason(), "Created");
    assert_eq!(Status::NotFound.reason(), "Not Found");
    assert_eq!(Status::InternalServerError.reason(), "Internal Server Error");
}

#[test]
fn every_error_but_a_failure_of_the_server_is_a_404() {
    assert_eq!(ErrorKind::Encoding.status(), Status::NotFound);
    assert_eq!(ErrorKind::MalformedRequest.status(), Status::NotFound);
    assert_eq!(ErrorKind::NotFound.status(), Status::NotFound);
    assert_eq!(ErrorKind::FileNotFound.status(), Status::NotFound);
    assert_eq!(ErrorKind::Io.status(), Status::InternalServerError);
}
