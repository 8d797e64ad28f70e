use http_server_starter_rust::routes::is_capture_segment;
use http_server_starter_rust::text::find;
use http_server_starter_rust::text::split;
use http_server_starter_rust::text::starts_with;
use http_server_starter_rust::text::usize_to_string;

#[test]
fn split_on_slash() {
    assert_eq!(split("/echo/hello", "/"), vec!["", "echo", "hello"]);
    assert_eq!(split("", "/"), vec![""]);
    assert_eq!(split("/", "/"), vec!["", ""]);
    assert_eq!(split("a", "/"), vec!["a"]);
    assert_eq!(split("a//b", "/"), vec!["a", "", "b"]);
}

#[test]
fn split_on_multichar_needle() {
    assert_eq!(split("a\r\nb\r\nc", "\r\n"), vec!["a", "b", "c"]);
    assert_eq!(split("a\r\n", "\r\n"), vec!["a", ""]);
}

#[test]
fn find_first_occurrence() {
    assert_eq!(find("header\r\n\r\nbody", "\r\n\r\n"), Some(6));
    assert_eq!(find("no delimiter", "\r\n\r\n"), None);
    assert_eq!(find("abcabc", "bc"), Some(1));
    assert_eq!(find("", "x"), None);
}

#[test]
fn starts_with_prefixes() {
    assert!(starts_with("GET /", "GET"));
    assert!(!starts_with("POST /", "GET"));
    assert!(starts_with("anything", ""));
    assert!(!starts_with("GE", "GET"));
}

#[test]
fn decimal_text_of_sizes() {
    assert_eq!(usize_to_string(0), "0");
    assert_eq!(usize_to_string(7), "7");
    assert_eq!(usize_to_string(42), "42");
    assert_eq!(usize_to_string(1000), "1000");
    assert_eq!(usize_to_string(987654), "987654");
}

#[test]
fn capture_segments_are_braced() {
    assert!(is_capture_segment("{x}"));
    assert!(is_capture_segment("{}"));
    assert!(is_capture_segment("{long-name}"));
    assert!(!is_capture_segment("x"));
    assert!(!is_capture_segment(""));
    assert!(!is_capture_segment("{"));
    assert!(!is_capture_segment("}"));
    assert!(!is_capture_segment("{x"));
    assert!(!is_capture_segment("x}"));
}
