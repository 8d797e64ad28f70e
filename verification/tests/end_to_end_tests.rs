//! End-to-end flows through the library, with handlers as plain functions and
//! a map standing in for the storage a real application would use: parse the
//! wire text, resolve a route, invoke the handler, serialize the answer.
use std::collections::HashMap;
use std::sync::Mutex;

use http_server_starter_rust::app::App;
use http_server_starter_rust::request::Request;
use http_server_starter_rust::response::response_for_handler_result;
use http_server_starter_rust::response::Response;
use http_server_starter_rust::response::ResponseBuilder;
use http_server_starter_rust::ContentType;
use http_server_starter_rust::HttpCode;

struct Storage {
    files: Mutex<HashMap<String, String>>,
    fail_writes: bool,
}

type Handler = fn(&Request, &Storage) -> Result<Response, String>;

fn echo_handler(request: &Request, _data: &Storage) -> Result<Response, String> {
    let value = request.param()[0].clone();
    Ok(ResponseBuilder::new().code(HttpCode::Ok200).content(value, ContentType::TextPlain).build())
}

fn upload_handler(request: &Request, data: &Storage) -> Result<Response, String> {
    if data.fail_writes {
        return Ok(ResponseBuilder::new().code(HttpCode::Err500).build());
    }
    let name = request.param()[0].clone();
    data.files.lock().unwrap().insert(name, request.body().to_string());
    Ok(ResponseBuilder::new().code(HttpCode::Ok201).build())
}

fn dispatch(app: &App<Storage, Handler>, raw: &str) -> String {
    let mut request = Request::parse(raw);
    let response = match app.routes().route_for(&mut request) {
        Some(route) => {
            let handler = route.controller();
            response_for_handler_result(handler(&request, storage_of(app)))
        },
        None => Response::default_not_found(),
    };
    response.serialize()
}

fn storage_of(app: &App<Storage, Handler>) -> &Storage {
    app.application_data()
}

fn test_app(fail_writes: bool) -> App<Storage, Handler> {
    let storage = Storage { files: Mutex::new(HashMap::new()), fail_writes };
    let mut app: App<Storage, Handler> = App::new("127.0.0.1:4221", storage);
    app.get("/echo/{x}", echo_handler);
    app.post("/files/{name}", upload_handler);
    app
}

#[test]
fn app_keeps_its_address() {
    let app = test_app(false);
    assert_eq!(app.ip(), "127.0.0.1:4221");
}

#[test]
fn echo_round_trip() {
    let app = test_app(false);
    let wire = dispatch(&app, "GET /echo/hello HTTP/1.1\r\n\r\n");
    assert_eq!(
        wire,
        "HTTP/1.1 200 Ok\r\nContent-Type: text/plain\r\nContent-Length: 5\r\n\r\nhello\r\n"
    );
}

#[test]
fn upload_stores_body_and_returns_created() {
    let app = test_app(false);
    let wire = dispatch(&app, "POST /files/notes HTTP/1.1\r\n\r\nsome text");
    assert_eq!(wire, "HTTP/1.1 201 Created\r\n\r\n");
    let files = storage_of(&app).files.lock().unwrap();
    assert_eq!(files.get("notes").map(String::as_str), Some("some text"));
}

#[test]
fn upload_failure_returns_server_error() {
    let app = test_app(true);
    let wire = dispatch(&app, "POST /files/notes HTTP/1.1\r\n\r\nsome text");
    assert_eq!(wire, "HTTP/1.1 500 Internal Server Error\r\n\r\n");
    assert!(storage_of(&app).files.lock().unwrap().is_empty());
}

#[test]
fn unregistered_path_gets_default_not_found() {
    let app = test_app(false);
    let wire = dispatch(&app, "GET /nope HTTP/1.1\r\n\r\n");
    assert_eq!(wire, "HTTP/1.1 404 Not Found\r\n\r\n");
}

#[test]
fn configured_fallback_answers_unmatched_paths() {
    let mut app = test_app(false);
    fn teapot(_request: &Request, _data: &Storage) -> Result<Response, String> {
        Ok(ResponseBuilder::new()
            .code(HttpCode::Err404)
            .content("lost".to_string(), ContentType::TextPlain)
            .build())
    }
    app.set_fallback(teapot as Handler);
    let wire = dispatch(&app, "GET /nope HTTP/1.1\r\n\r\n");
    assert_eq!(
        wire,
        "HTTP/1.1 404 Not Found\r\nContent-Type: text/plain\r\nContent-Length: 4\r\n\r\nlost\r\n"
    );
}

#[test]
fn handler_error_becomes_server_error_response() {
    let mut app = test_app(false);
    fn failing(_request: &Request, _data: &Storage) -> Result<Response, String> {
        Err("boom".to_string())
    }
    app.get("/broken", failing);
    let wire = dispatch(&app, "GET /broken HTTP/1.1\r\n\r\n");
    assert_eq!(wire, "HTTP/1.1 500 Internal Server Error\r\n\r\n");
}
