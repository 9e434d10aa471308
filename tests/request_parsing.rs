use zeke::request::{Request, RequestBuffer};
use zeke::HttpMethod;

fn buffer(text: &str) -> RequestBuffer {
    let mut b = [0u8; 1024];
    let bytes = text.as_bytes();
    b[..bytes.len()].copy_from_slice(bytes);
    b
}

fn parse(text: &str) -> (Request, Option<zeke::Response>) {
    Request::parse_request_bytes(buffer(text))
}

#[test]
fn invalid_method_is_rejected() {
    let (_, resp) = parse("GE / HTTP/1.1\r\nHost: x\r\n\r\n");
    let resp = resp.expect("a response");
    assert_eq!(resp.status, 400);
    assert_eq!(resp.body, "malformed request: method was extracted but found to be invalid");
}

#[test]
fn missing_method_is_rejected() {
    let (_, resp) = parse("/ HTTP/1.1\r\nHost: x\r\n\r\n");
    let resp = resp.expect("a response");
    assert_eq!(resp.status, 400);
    assert!(resp.body.starts_with("malformed request protocol, method, or path is missing"));
}

#[test]
fn missing_protocol_is_rejected() {
    let (req, resp) = parse("GET / \r\nHost: x\r\n\r\n");
    let resp = resp.expect("a response");
    assert_eq!(resp.status, 400);
    assert_eq!(
        resp.body,
        "malformed request: protocol must be HTTP/1.1, server does not support other protocols at this time"
    );
    assert_eq!(req.method_and_path, "GET /");
}

#[test]
fn other_protocol_is_rejected() {
    let (_, resp) = parse("GET / HTTP/1.0\r\n\r\n");
    assert_eq!(resp.expect("a response").status, 400);
}

#[test]
fn lower_case_method_is_rejected() {
    let (_, resp) = parse("get / HTTP/1.1\r\n\r\n");
    assert_eq!(resp.expect("a response").status, 400);
}

#[test]
fn error_response_carries_content_length() {
    let (_, resp) = parse("GE / HTTP/1.1\r\n\r\n");
    let resp = resp.unwrap();
    assert_eq!(resp.get_header("Content-Length"), "63");
}

#[test]
fn query_parameters_are_parsed() {
    let (req, resp) = parse("GET /search?name=zeke&age=30 HTTP/1.1\r\n\r\n");
    assert!(resp.is_none());
    assert_eq!(req.path, "/search");
    assert_eq!(req.method_and_path, "GET /search");
    assert_eq!(req.params.len(), 2);
    assert_eq!(req.params.get("name").unwrap().value(), "zeke");
    assert_eq!(req.params.get("age").unwrap().value(), "30");
}

#[test]
fn malformed_query_pairs_are_dropped() {
    let (req, resp) = parse("GET /s?a=1&b&c=2=3&d= HTTP/1.1\r\n\r\n");
    assert!(resp.is_none());
    assert_eq!(req.params.len(), 2);
    assert_eq!(req.params.get("a").unwrap().value(), "1");
    assert_eq!(req.params.get("d").unwrap().value(), "");
}

#[test]
fn query_is_split_at_the_first_question_mark() {
    let (req, _) = parse("GET /s?a=x?y HTTP/1.1\r\n\r\n");
    assert_eq!(req.path, "/s");
    assert_eq!(req.params.get("a").unwrap().value(), "x?y");
}

#[test]
fn headers_and_body_are_parsed() {
    let (req, resp) = parse("POST /items HTTP/1.1\r\nContent-Type: text/plain\r\nX-Id:\t42\r\nbroken header\r\n\r\nhello body");
    assert!(resp.is_none());
    assert_eq!(req.method, HttpMethod::POST);
    assert_eq!(req.protocol, "HTTP/1.1");
    assert_eq!(req.get_header("Content-Type"), "text/plain");
    assert_eq!(req.get_header("X-Id"), "42");
    assert_eq!(req.get_header("missing"), "");
    assert_eq!(req.headers.len(), 2);
    assert_eq!(req.body, "hello body");
}

#[test]
fn header_with_two_colons_is_dropped() {
    let (req, _) = parse("GET / HTTP/1.1\r\nHost: localhost:8080\r\nA: b\r\n\r\n");
    assert_eq!(req.get_header("Host"), "");
    assert_eq!(req.get_header("A"), "b");
}

#[test]
fn body_is_only_the_last_line() {
    let (req, _) = parse("POST / HTTP/1.1\r\n\r\nfirst\nsecond");
    assert_eq!(req.body, "second");
}

#[test]
fn blank_last_line_gives_empty_body() {
    let (req, resp) = parse("DELETE /x HTTP/1.1\r\nA: b\r\n   ");
    assert!(resp.is_none());
    assert_eq!(req.method, HttpMethod::DELETE);
    assert_eq!(req.body, "");
}

#[test]
fn multibyte_text_is_decoded() {
    let (req, resp) = parse("PUT /caf\u{e9} HTTP/1.1\r\n\r\nna\u{ef}ve \u{1f600}");
    assert!(resp.is_none());
    assert_eq!(req.path, "/caf\u{e9}");
    assert_eq!(req.method_and_path, "PUT /caf\u{e9}");
    assert_eq!(req.body, "na\u{ef}ve \u{1f600}");
}

#[test]
fn invalid_utf8_is_rejected() {
    let mut b = buffer("GET / HTTP/1.1\r\n\r\n");
    b[3] = 0xff;
    let (req, resp) = Request::parse_request_bytes(b);
    let resp = resp.expect("a response");
    assert_eq!(resp.status, 400);
    assert_eq!(resp.body, "failed to parse request");
    assert_eq!(req.path, "");
}

#[test]
fn only_bytes_before_the_first_zero_count() {
    let mut b = buffer("PATCH /a HTTP/1.1\r\n\r\nbody");
    b[21] = 0;
    let (req, resp) = Request::parse_request_bytes(b);
    assert!(resp.is_none());
    assert_eq!(req.method, HttpMethod::PATCH);
    assert_eq!(req.body, "");
}

#[test]
fn empty_buffer_gives_blank_request() {
    let (req, resp) = Request::parse_request_bytes([0u8; 1024]);
    assert!(resp.is_none());
    assert_eq!(req.method_and_path, "");
    assert_eq!(req.protocol, "");
}

#[test]
fn parsing_twice_gives_equal_requests() {
    let text = "GET /search?q=1 HTTP/1.1\r\nHost: a\r\n\r\nbody";
    let (a, ra) = parse(text);
    let (b, rb) = parse(text);
    assert!(ra.is_none() && rb.is_none());
    assert_eq!(a.method, b.method);
    assert_eq!(a.path, b.path);
    assert_eq!(a.method_and_path, b.method_and_path);
    assert_eq!(a.protocol, b.protocol);
    assert_eq!(a.body, b.body);
    assert_eq!(a.get_header("Host"), b.get_header("Host"));
    assert_eq!(a.headers.len(), b.headers.len());
    assert_eq!(a.params.get("q").unwrap().value(), b.params.get("q").unwrap().value());
    assert_eq!(a.context.len(), 0);
    assert_eq!(b.context.len(), 0);
}

#[test]
fn builder_and_request_string() {
    let host = "127.0.0.1:8080".to_string();
    let req = Request::new(&host).method(HttpMethod::POST).path("/x").body("b").header("A", "1");
    assert_eq!(req.get_url(), "127.0.0.1:8080/x");
    assert_eq!(req.get_host(), "127.0.0.1:8080");
    assert_eq!(req.get_request_string(), "POST /x HTTP/1.1\r\nA: 1\r\n\r\nb");
}

#[test]
fn request_cookie_is_found() {
    let host = "h".to_string();
    let req = Request::new(&host).header("Cookie", "zeke=likes cookies");
    assert_eq!(req.get_cookie("zeke"), "likes cookies");
    assert_eq!(req.get_cookie("other"), "");
}

#[test]
fn context_values_are_kept_per_request() {
    let host = "h".to_string();
    let mut a = Request::new(&host);
    let b = Request::new(&host);
    a.put_context("TRACE", "abc".to_string());
    assert_eq!(a.context_value("TRACE"), "abc");
    assert_eq!(b.context_value("TRACE"), "");
}
