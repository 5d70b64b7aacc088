use sentiment_server::http::{build_response, handle_request, is_root_request, route_line};

#[test]
fn route_line_is_the_fixed_request_line() {
    assert_eq!(route_line(), b"GET / HTTP/1.1".to_vec());
}

#[test]
fn root_request_is_recognised() {
    assert!(is_root_request(b"GET / HTTP/1.1\r\nHost: example\r\n\r\n"));
    assert!(is_root_request(b"GET / HTTP/1.1\r\n"));
    // no CR LF at all: the first line is the whole request
    assert!(is_root_request(b"GET / HTTP/1.1"));
}

#[test]
fn other_requests_are_not_the_route() {
    assert!(!is_root_request(b"GET /foo HTTP/1.1\r\n\r\n"));
    assert!(!is_root_request(b"POST / HTTP/1.1\r\n\r\n"));
    assert!(!is_root_request(b"GET / HTTP/1.0"));
    assert!(!is_root_request(b""));
    assert!(!is_root_request(b"GET / HTTP/1."));
    assert!(!is_root_request(&[0u8; 512]));
}

#[test]
fn first_line_must_match_exactly_not_by_prefix() {
    // the route line followed by more bytes on the same line is not the route
    assert!(!is_root_request(b"GET / HTTP/1.1!"));
    assert!(!is_root_request(b"GET / HTTP/1.12"));
    assert!(!is_root_request(b"GET / HTTP/1.1 "));
    assert!(!is_root_request(b"GET / HTTP/1.1!\r\nHost: example\r\n\r\n"));
    // a lone CR does not end the line, so it makes the line longer
    assert!(!is_root_request(b"GET / HTTP/1.1\r"));
    // trailing bytes behind a CR LF belong to later lines, not the first
    assert!(is_root_request(b"GET / HTTP/1.1\r\njunk"));
}

#[test]
fn longer_first_line_request_gets_not_found() {
    let r = handle_request(b"GET / HTTP/1.1!\r\n\r\n", "<html>page</html>", "gone");
    assert_eq!(r, "HTTP/1.1 404 NOT FOUND\r\n\r\ngone");
}

#[test]
fn build_response_places_blank_line_between_status_and_body() {
    let r = build_response("HTTP/1.1 200 OK", "hello");
    assert_eq!(r, "HTTP/1.1 200 OK\r\n\r\nhello");
}

#[test]
fn root_request_gets_rendered_page_with_success_status() {
    let r = handle_request(b"GET / HTTP/1.1\r\nHost: x\r\n\r\n", "<html>page</html>", "gone");
    assert_eq!(r, "HTTP/1.1 200 OK\r\n\r\n<html>page</html>");
}

#[test]
fn other_request_gets_not_found_body_with_not_found_status() {
    let r = handle_request(b"GET /foo HTTP/1.1\r\n\r\n", "<html>page</html>", "gone");
    assert_eq!(r, "HTTP/1.1 404 NOT FOUND\r\n\r\ngone");
}

#[test]
fn malformed_request_gets_not_found() {
    let r = handle_request(b"\x00\x01\x02", "page", "gone");
    assert_eq!(r, "HTTP/1.1 404 NOT FOUND\r\n\r\ngone");
}
