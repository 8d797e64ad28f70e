use http_server_starter_rust::response::Response;
use http_server_starter_rust::response::ResponseBuilder;
use http_server_starter_rust::ContentType;
use http_server_starter_rust::HttpCode;

#[test]
fn serialize_with_text_plain_content() {
    let response = ResponseBuilder::new()
        .code(HttpCode::Ok200)
        .content("hi".to_string(), ContentType::TextPlain)
        .build();
    assert_eq!(
        response.serialize(),
        "HTTP/1.1 200 Ok\r\nContent-Type: text/plain\r\nContent-Length: 2\r\n\r\nhi\r\n"
    );
}

#[test]
fn serialize_without_content() {
    let response = ResponseBuilder::new().code(HttpCode::Ok200).build();
    assert_eq!(response.serialize(), "HTTP/1.1 200 Ok\r\n\r\n");
}

#[test]
fn serialize_created_with_empty_content() {
    let response = ResponseBuilder::new()
        .code(HttpCode::Ok201)
        .content(String::new(), ContentType::TextPlain)
        .build();
    assert_eq!(
        response.serialize(),
        "HTTP/1.1 201 Created\r\nContent-Type: text/plain\r\nContent-Length: 0\r\n\r\n\r\n"
    );
}

#[test]
fn serialize_octet_stream_content() {
    let response = ResponseBuilder::new()
        .code(HttpCode::Ok200)
        .content("abc123".to_string(), ContentType::OctetStream)
        .build();
    assert_eq!(
        response.serialize(),
        "HTTP/1.1 200 Ok\r\nContent-Type: application/octet-stream\r\nContent-Length: 6\r\n\r\nabc123\r\n"
    );
}

#[test]
fn serialize_error_codes() {
    let not_found = ResponseBuilder::new().code(HttpCode::Err404).build();
    assert_eq!(not_found.serialize(), "HTTP/1.1 404 Not Found\r\n\r\n");
    let server_error = ResponseBuilder::new().code(HttpCode::Err500).build();
    assert_eq!(server_error.serialize(), "HTTP/1.1 500 Internal Server Error\r\n\r\n");
}

#[test]
fn build_defaults_to_status_200() {
    let response = ResponseBuilder::new().build();
    assert_eq!(response.code(), HttpCode::Ok200);
    assert_eq!(response.serialize(), "HTTP/1.1 200 Ok\r\n\r\n");
}

#[test]
fn content_length_counts_bytes() {
    let response = ResponseBuilder::new()
        .code(HttpCode::Ok200)
        .content("h\u{00e9}".to_string(), ContentType::TextPlain)
        .build();
    let wire = response.serialize();
    assert!(wire.contains("Content-Length: 3\r\n"));
}

#[test]
fn reason_texts_match_the_wire_format() {
    assert_eq!(HttpCode::Ok200.reason(), "200 Ok");
    assert_eq!(HttpCode::Ok201.reason(), "201 Created");
    assert_eq!(HttpCode::Err404.reason(), "404 Not Found");
    assert_eq!(HttpCode::Err500.reason(), "500 Internal Server Error");
    assert_eq!(ContentType::TextPlain.tag(), "text/plain");
    assert_eq!(ContentType::OctetStream.tag(), "application/octet-stream");
}

#[test]
fn default_not_found_is_bare_404() {
    let response = Response::default_not_found();
    assert_eq!(response.code(), HttpCode::Err404);
    assert_eq!(response.serialize(), "HTTP/1.1 404 Not Found\r\n\r\n");
}
