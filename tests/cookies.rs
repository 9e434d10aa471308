use zeke::{Cookie, Response};

#[test]
fn secure_http_only_cookie_text() {
    let c = Cookie::new("zeke", "likes cookies").secure(true).http_only(true);
    assert_eq!(c.to_string(), "zeke=likes cookies; Secure; HttpOnly");
}

#[test]
fn all_attributes_in_order() {
    let c = Cookie::new("id", "abc123")
        .same_site("Strict")
        .http_only(true)
        .secure(true)
        .path("/")
        .domain("example.com")
        .max_age(3600)
        .expires(0);
    assert_eq!(
        c.to_string(),
        "id=abc123; Expires=Thu, 01 Jan 1970 00:00:00 +0000; Max-Age=3600; Domain=example.com; Path=/; Secure; HttpOnly; SameSite=Strict"
    );
}

#[test]
fn expiry_is_written_as_rfc2822() {
    let c = Cookie::new("a", "b").expires(1623233894);
    assert_eq!(c.to_string(), "a=b; Expires=Wed, 09 Jun 2021 10:18:14 +0000");
}

#[test]
fn expiry_that_cannot_be_written_is_left_out() {
    let c = Cookie::new("a", "b").expires(-3_000_000_000);
    assert_eq!(c.to_string(), "a=b");
}

#[test]
fn render_uses_the_given_expiry_text() {
    let c = Cookie::new("a", "b").max_age(0);
    assert_eq!(c.render(Some("soon".to_string())), "a=b; Expires=soon; Max-Age=0");
    assert_eq!(c.render(None), "a=b; Max-Age=0");
}

#[test]
fn each_cookie_gets_its_own_header() {
    let r = Response::new()
        .set_cookie(Cookie::new("a", "1"))
        .set_cookie(Cookie::new("b", "2").secure(true));
    assert_eq!(
        r.headers,
        vec![
            ("Set-Cookie".to_string(), "a=1".to_string()),
            ("Set-Cookie".to_string(), "b=2; Secure".to_string())
        ]
    );
}

#[test]
fn first_matching_cookie_wins() {
    assert_eq!(zeke::cookie::find_cookie("a=1;a=2", "a"), "1");
    assert_eq!(zeke::cookie::find_cookie("x;a=1", "a"), "1");
    assert_eq!(zeke::cookie::find_cookie("", "a"), "");
}
