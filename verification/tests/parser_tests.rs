use http_server_starter_rust::request::Request;
use http_server_starter_rust::request::RequestBuilder;
use http_server_starter_rust::HttpMethod;

#[test]
fn parse_full_get_request() {
    let raw = "GET /echo/hello HTTP/1.1\r\nHost: localhost\r\nUser-Agent: curl/7.1\r\n\r\n";
    let req = Request::parse(raw);
    assert_eq!(*req.method(), HttpMethod::Get);
    assert_eq!(req.path(), "/echo/hello");
    assert_eq!(req.user_agent(), "curl/7.1");
    assert_eq!(req.body(), "");
    assert!(req.param().is_empty());
}

#[test]
fn parse_post_request_with_body() {
    let raw = "POST /files/notes HTTP/1.1\r\nContent-Length: 5\r\n\r\nhello";
    let req = Request::parse(raw);
    assert_eq!(*req.method(), HttpMethod::Post);
    assert_eq!(req.path(), "/files/notes");
    assert_eq!(req.body(), "hello");
}

#[test]
fn parse_empty_input_gives_defaults() {
    let req = Request::parse("");
    assert_eq!(*req.method(), HttpMethod::Get);
    assert_eq!(req.path(), "/");
    assert_eq!(req.user_agent(), "");
    assert_eq!(req.body(), "");
}

#[test]
fn parse_without_method_line_gives_defaults() {
    let raw = "Host: localhost\r\nAccept: */*\r\n\r\n";
    let req = Request::parse(raw);
    assert_eq!(*req.method(), HttpMethod::Get);
    assert_eq!(req.path(), "/");
}

#[test]
fn parse_method_line_without_path_defaults_path() {
    let req = Request::parse("GET\r\n\r\n");
    assert_eq!(*req.method(), HttpMethod::Get);
    assert_eq!(req.path(), "/");
}

#[test]
fn parse_body_is_everything_after_first_blank_line() {
    let raw = "POST /x HTTP/1.1\r\n\r\nfirst\r\n\r\nsecond";
    let req = Request::parse(raw);
    assert_eq!(req.body(), "first\r\n\r\nsecond");
}

#[test]
fn parse_no_blank_line_means_empty_body() {
    let raw = "POST /x HTTP/1.1\r\nContent-Length: 5";
    let req = Request::parse(raw);
    assert_eq!(req.body(), "");
    assert_eq!(req.path(), "/x");
}

#[test]
fn parse_first_method_line_wins() {
    let raw = "GET /first HTTP/1.1\r\nPOST /second HTTP/1.1\r\n\r\n";
    let req = Request::parse(raw);
    assert_eq!(*req.method(), HttpMethod::Get);
    assert_eq!(req.path(), "/first");
}

#[test]
fn parse_first_user_agent_line_wins() {
    let raw = "GET / HTTP/1.1\r\nUser-Agent: one\r\nUser-Agent: two\r\n\r\n";
    let req = Request::parse(raw);
    assert_eq!(req.user_agent(), "one");
}

#[test]
fn parse_user_agent_without_separator_is_empty() {
    let raw = "GET / HTTP/1.1\r\nUser-Agentless\r\n\r\n";
    let req = Request::parse(raw);
    assert_eq!(req.user_agent(), "");
}

#[test]
fn parse_user_agent_keeps_text_after_first_separator() {
    let raw = "GET / HTTP/1.1\r\nUser-Agent: a: b\r\n\r\n";
    let req = Request::parse(raw);
    assert_eq!(req.user_agent(), "a: b");
}

#[test]
fn builder_defaults_every_absent_field() {
    let req = RequestBuilder::new().build();
    assert_eq!(*req.method(), HttpMethod::Get);
    assert_eq!(req.path(), "/");
    assert_eq!(req.user_agent(), "");
    assert_eq!(req.body(), "");
    assert!(req.param().is_empty());
}

#[test]
fn builder_keeps_what_was_set() {
    let mut builder = RequestBuilder::new();
    builder.method(HttpMethod::Post);
    builder.path("/files/a".to_string());
    builder.body("payload".to_string());
    builder.user_agent("tester".to_string());
    let req = builder.build();
    assert_eq!(*req.method(), HttpMethod::Post);
    assert_eq!(req.path(), "/files/a");
    assert_eq!(req.body(), "payload");
    assert_eq!(req.user_agent(), "tester");
}

#[test]
fn set_param_replaces_params_only() {
    let mut req = Request::parse("GET /a HTTP/1.1\r\n\r\n");
    req.set_param(vec!["x".to_string(), "y".to_string()]);
    assert_eq!(req.param().len(), 2);
    assert_eq!(req.param()[0], "x");
    assert_eq!(req.param()[1], "y");
    assert_eq!(req.path(), "/a");
}
