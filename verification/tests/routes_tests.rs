use http_server_starter_rust::request::Request;
use http_server_starter_rust::routes::Routes;
use http_server_starter_rust::HttpMethod;

fn get_request(path: &str) -> Request {
    Request::parse(&format!("GET {} HTTP/1.1\r\n\r\n", path))
}

fn post_request(path: &str, body: &str) -> Request {
    Request::parse(&format!("POST {} HTTP/1.1\r\n\r\n{}", path, body))
}

#[test]
fn literal_route_matches_exactly() {
    let mut routes: Routes<u32> = Routes::new();
    routes.register_route(HttpMethod::Get, "/".to_string(), 1);
    routes.register_route(HttpMethod::Get, "/user-agent".to_string(), 2);
    let mut req = get_request("/user-agent");
    let route = routes.resolve(&mut req).expect("should match");
    assert_eq!(*route.controller(), 2);
    assert!(req.param().is_empty());
}

#[test]
fn capture_route_records_params_in_order() {
    let mut routes: Routes<u32> = Routes::new();
    routes.register_route(HttpMethod::Get, "/echo/{a}/{b}".to_string(), 7);
    let mut req = get_request("/echo/first/second");
    let route = routes.resolve(&mut req).expect("should match");
    assert_eq!(*route.controller(), 7);
    assert_eq!(req.param().len(), 2);
    assert_eq!(req.param()[0], "first");
    assert_eq!(req.param()[1], "second");
}

#[test]
fn segment_count_must_match() {
    let mut routes: Routes<u32> = Routes::new();
    routes.register_route(HttpMethod::Get, "/echo/{x}".to_string(), 1);
    let mut too_long = get_request("/echo/a/b");
    assert!(routes.resolve(&mut too_long).is_none());
    assert!(too_long.param().is_empty());
    let mut too_short = get_request("/echo");
    assert!(routes.resolve(&mut too_short).is_none());
}

#[test]
fn first_registered_route_wins() {
    let mut routes: Routes<u32> = Routes::new();
    routes.register_route(HttpMethod::Get, "/a/{x}".to_string(), 1);
    routes.register_route(HttpMethod::Get, "/a/b".to_string(), 2);
    let mut req = get_request("/a/b");
    let route = routes.resolve(&mut req).expect("should match");
    assert_eq!(*route.controller(), 1);
    assert_eq!(req.param().len(), 1);
    assert_eq!(req.param()[0], "b");
}

#[test]
fn literal_mismatch_rejects_route() {
    let mut routes: Routes<u32> = Routes::new();
    routes.register_route(HttpMethod::Get, "/files/{name}".to_string(), 1);
    let mut req = get_request("/docs/readme");
    assert!(routes.resolve(&mut req).is_none());
}

#[test]
fn buckets_are_separate_per_method() {
    let mut routes: Routes<u32> = Routes::new();
    routes.register_route(HttpMethod::Get, "/files/{name}".to_string(), 1);
    routes.register_route(HttpMethod::Post, "/files/{name}".to_string(), 2);
    let mut get_req = get_request("/files/a");
    assert_eq!(*routes.resolve(&mut get_req).unwrap().controller(), 1);
    let mut post_req = post_request("/files/a", "data");
    assert_eq!(*routes.resolve(&mut post_req).unwrap().controller(), 2);
}

#[test]
fn unmatched_path_without_fallback_resolves_to_nothing() {
    let mut routes: Routes<u32> = Routes::new();
    routes.register_route(HttpMethod::Get, "/".to_string(), 1);
    let mut req = get_request("/nope");
    assert!(routes.resolve(&mut req).is_none());
    assert!(routes.get_not_found_route().is_none());
    assert!(routes.route_for(&mut req).is_none());
}

#[test]
fn unmatched_path_with_fallback_resolves_to_fallback() {
    let mut routes: Routes<u32> = Routes::new();
    routes.register_route(HttpMethod::Get, "/".to_string(), 1);
    routes.set_not_found_route(99);
    let mut req = get_request("/nope");
    assert!(routes.resolve(&mut req).is_none());
    let fallback = routes.route_for(&mut req).expect("fallback installed");
    assert_eq!(*fallback.controller(), 99);
}

#[test]
fn matched_path_ignores_fallback() {
    let mut routes: Routes<u32> = Routes::new();
    routes.register_route(HttpMethod::Get, "/here".to_string(), 1);
    routes.set_not_found_route(99);
    let mut req = get_request("/here");
    let route = routes.route_for(&mut req).expect("should match");
    assert_eq!(*route.controller(), 1);
}

#[test]
fn substituted_capture_values_come_back_as_params() {
    let mut routes: Routes<u32> = Routes::new();
    routes.register_route(HttpMethod::Get, "/files/{name}".to_string(), 1);
    for value in ["readme", "a-b-c", "{odd}", "x.y"] {
        let mut req = get_request(&format!("/files/{}", value));
        let route = routes.resolve(&mut req).expect("capture should match");
        assert_eq!(*route.controller(), 1);
        assert_eq!(req.param().len(), 1);
        assert_eq!(req.param()[0], value);
    }
}

#[test]
fn root_path_matches_root_template() {
    let mut routes: Routes<u32> = Routes::new();
    routes.register_route(HttpMethod::Get, "/".to_string(), 1);
    let mut req = get_request("/");
    assert_eq!(*routes.resolve(&mut req).unwrap().controller(), 1);
    let mut other = get_request("/x");
    assert!(routes.resolve(&mut other).is_none());
}
