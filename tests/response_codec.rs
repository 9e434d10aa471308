use zeke::{not_found, Cookie, Response};

#[test]
fn builder_sets_content_length() {
    let r = Response::new().status(201).body("hello");
    assert_eq!(r.status, 201);
    assert_eq!(r.body, "hello");
    assert_eq!(r.headers, vec![("Content-Length".to_string(), "5".to_string())]);
}

#[test]
fn content_length_counts_bytes() {
    let r = Response::new().body("\u{e9}t\u{e9}");
    assert_eq!(r.get_header("Content-Length"), "5");
}

#[test]
fn setting_a_header_again_replaces_it() {
    let r = Response::new().set_header("A", "1").set_header("B", "2").set_header("A", "3");
    assert_eq!(
        r.headers,
        vec![("A".to_string(), "3".to_string()), ("B".to_string(), "2".to_string())]
    );
    assert_eq!(r.get_header("A"), "3");
    assert_eq!(r.get_header("C"), "");
}

#[test]
fn to_bytes_writes_the_wire_form() {
    let r = Response::new().status(404).set_header("X", "y").body("gone");
    let text = String::from_utf8(r.to_bytes()).unwrap();
    assert_eq!(text, "HTTP/1.1 404\r\nX: y\r\nContent-Length: 4\r\n\r\ngone");
    assert_eq!(r.raw(), "HTTP/1.1 404\r\nX: y\r\nContent-Length: 4\r\n\r\ngone");
}

#[test]
fn round_trip_keeps_status_headers_and_body() {
    let r = Response::new()
        .status(302)
        .set_header("Location", "http://example.com/a")
        .body("moved")
        .set_cookie(Cookie::new("a", "1"))
        .set_cookie(Cookie::new("b", "2").path("/"));
    let back = Response::new_from_bytes(&r.to_bytes());
    assert_eq!(back.status, 302);
    assert_eq!(back.protocol, "HTTP/1.1");
    assert_eq!(back.body, "moved");
    assert_eq!(back.headers, r.headers);
    let cookies: Vec<&String> =
        back.headers.iter().filter(|h| h.0 == "Set-Cookie").map(|h| &h.1).collect();
    assert_eq!(cookies, vec!["a=1", "b=2; Path=/"]);
}

#[test]
fn round_trip_with_empty_body() {
    let r = Response::new().status(204).set_header("A", "b");
    let back = Response::new_from_bytes(&r.to_bytes());
    assert_eq!(back.status, 204);
    assert_eq!(back.body, "");
    assert_eq!(back.headers, r.headers);
}

#[test]
fn status_that_is_not_a_number_is_refused() {
    let back = Response::new_from_bytes(&b"HTTP/1.1 abc\r\n\r\n".to_vec());
    assert_eq!(back.status, 400);
    assert_eq!(back.body, "malformed response, status is not a number");
}

#[test]
fn status_too_large_is_refused() {
    let back = Response::new_from_bytes(&b"HTTP/1.1 70000\r\n\r\n".to_vec());
    assert_eq!(back.status, 400);
}

#[test]
fn status_line_with_one_part_is_refused() {
    let back = Response::new_from_bytes(&b"HTTP/1.1\r\n\r\n".to_vec());
    assert_eq!(back.status, 400);
    assert_eq!(back.body, "malformed response, more than 2 parts in status line");
}

#[test]
fn lines_without_colon_are_skipped() {
    let back = Response::new_from_bytes(&b"HTTP/1.1 200\r\nno colon\r\nK:  v : w \r\n\r\n body  ".to_vec());
    assert_eq!(back.status, 200);
    assert_eq!(back.headers, vec![("K".to_string(), "v : w".to_string())]);
    assert_eq!(back.body, "body");
}

#[test]
fn invalid_utf8_response_gives_500() {
    let back = Response::new_from_bytes(&vec![b'H', 0xc3, 0x28]);
    assert_eq!(back.status, 500);
    assert!(back.body.starts_with("internal server error: "));
}

#[test]
fn reading_stops_at_zero_byte() {
    let mut bytes = b"HTTP/1.1 201\r\n\r\nbody".to_vec();
    bytes.extend_from_slice(&[0, 0, b'x']);
    let back = Response::new_from_bytes(&bytes);
    assert_eq!(back.status, 201);
    assert_eq!(back.body, "body");
}

#[test]
fn not_found_response() {
    let r = not_found();
    assert_eq!(r.status, 404);
    assert_eq!(r.body, "Not Found");
    assert!(r.headers.is_empty());
}

#[test]
fn response_cookie_lookup() {
    let r = Response::new().set_header("Cookie", "a=1;b=x=y");
    assert_eq!(r.get_cookie("a"), "1");
    assert_eq!(r.get_cookie("b"), "x=y");
    assert_eq!(r.get_cookie("c"), "");
}
