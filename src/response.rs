//! Responses: how they are built, written to the wire and read back.
use vstd::prelude::*;
use vstd::utf8::{decode_utf8, encode_utf8, valid_utf8};

use crate::cookie::{cookie_text, cookie_value, expiry_text, find_cookie, Cookie};
use crate::text::{
    decimal, decimal_string, lines, lines_of, parse_u16, parse_u16_text, split_on,
    split_once, split_once_text, split_text, trim, trim_text, utf8_text, views,
};

verus! {

/// A response: status, headers in the order they were set, and body.
#[derive(Debug)]
pub struct Response {
    pub protocol: String,
    pub status: u16,
    pub body: String,
    /// Header entries in order; a key may repeat (`Set-Cookie`).
    pub headers: Vec<(String, String)>,
}

/// What a response holds.
pub struct ResponseModel {
    pub protocol: Seq<char>,
    pub status: u16,
    pub body: Seq<char>,
    pub headers: Seq<(Seq<char>, Seq<char>)>,
}

pub open spec fn entry_views(hs: Seq<(String, String)>) -> Seq<(Seq<char>, Seq<char>)> {
    hs.map_values(|e: (String, String)| (e.0@, e.1@))
}

impl View for Response {
    type V = ResponseModel;

    open spec fn view(&self) -> ResponseModel {
        ResponseModel {
            protocol: self.protocol@,
            status: self.status,
            body: self.body@,
            headers: entry_views(self.headers@),
        }
    }
}

/// A new response: `HTTP/1.1`, status 200, no headers, empty body.
pub open spec fn fresh_response() -> ResponseModel {
    ResponseModel { protocol: "HTTP/1.1"@, status: 200, body: Seq::empty(), headers: Seq::empty() }
}

/// The headers with `key` set to `value`: every entry under `key` takes the
/// value; where there is none, the entry is added at the end.
pub open spec fn with_header(
    hs: Seq<(Seq<char>, Seq<char>)>,
    key: Seq<char>,
    value: Seq<char>,
) -> Seq<(Seq<char>, Seq<char>)> {
    if exists|i: int| 0 <= i < hs.len() && (#[trigger] hs[i]).0 == key {
        hs.map_values(entry_setter(key, value))
    } else {
        hs.push((key, value))
    }
}

/// Gives an entry under `key` the value `value`, and leaves others alone.
pub open spec fn entry_setter(key: Seq<char>, value: Seq<char>) -> spec_fn(
    (Seq<char>, Seq<char>),
) -> (Seq<char>, Seq<char>) {
    |e: (Seq<char>, Seq<char>)|
        if e.0 == key {
            (key, value)
        } else {
            e
        }
}

/// The value of the first entry under `key`; empty where there is none.
pub open spec fn header_value(hs: Seq<(Seq<char>, Seq<char>)>, key: Seq<char>) -> Seq<char>
    decreases hs.len(),
{
    if hs.len() == 0 {
        Seq::empty()
    } else if hs[0].0 == key {
        hs[0].1
    } else {
        header_value(hs.drop_first(), key)
    }
}

/// The response with body `b`, and `Content-Length` set to its length in
/// UTF-8 bytes.
pub open spec fn with_body(r: ResponseModel, b: Seq<char>) -> ResponseModel {
    ResponseModel {
        body: b,
        headers: with_header(r.headers, "Content-Length"@, decimal(encode_utf8(b).len())),
        ..r
    }
}

/// A new response with `status` and body `b`.
pub open spec fn status_response(status: u16, b: Seq<char>) -> ResponseModel {
    with_body(ResponseModel { status, ..fresh_response() }, b)
}

/// The header lines, each `key: value` and a line break.
pub open spec fn headers_text(hs: Seq<(Seq<char>, Seq<char>)>) -> Seq<char>
    decreases hs.len(),
{
    if hs.len() == 0 {
        Seq::empty()
    } else {
        headers_text(hs.drop_last()) + hs.last().0 + ": "@ + hs.last().1 + "\r\n"@
    }
}

/// The wire text of a response: `HTTP/1.1 {status}`, the header lines, a
/// blank line and the body.
pub open spec fn response_text(r: ResponseModel) -> Seq<char> {
    "HTTP/1.1 "@ + decimal(r.status as nat) + "\r\n"@ + headers_text(r.headers) + "\r\n"@ + r.body
}

/// The text of a response under its own protocol.
pub open spec fn raw_text(r: ResponseModel) -> Seq<char> {
    r.protocol + " "@ + decimal(r.status as nat) + "\r\n"@ + headers_text(r.headers) + "\r\n"@
        + r.body
}

/// The bytes before the first zero byte.
pub open spec fn before_zero(b: Seq<u8>) -> Seq<u8>
    decreases b.len(),
{
    if b.len() == 0 || b[0] == 0 {
        Seq::empty()
    } else {
        seq![b[0]] + before_zero(b.drop_first())
    }
}

/// One line of a response read back into `acc`, line `i` of `ls`; `Err`
/// holds the response that ends the reading early.
pub open spec fn read_line(acc: ResponseModel, ls: Seq<Seq<char>>, i: int) -> Result<
    ResponseModel,
    ResponseModel,
> {
    let line = ls[i];
    if line.len() == 0 {
        Ok(acc)
    } else if i == 0 {
        let parts = split_on(line, ' ');
        if parts.len() < 2 {
            Err(status_response(400, "malformed response, more than 2 parts in status line"@))
        } else {
            match parse_u16(parts[1]) {
                Some(status) => Ok(ResponseModel { status, protocol: parts[0], ..acc }),
                None => Err(status_response(400, "malformed response, status is not a number"@)),
            }
        }
    } else if i == ls.len() - 1 {
        let t = trim(line);
        if t.len() == 0 {
            Ok(acc)
        } else {
            Ok(ResponseModel { body: t, ..acc })
        }
    } else {
        match split_once(line, ':') {
            Some((k, v)) => Ok(ResponseModel { headers: acc.headers.push((trim(k), trim(v))), ..acc }),
            None => Ok(acc),
        }
    }
}

/// The first `n` lines of `ls` read as a response.
pub open spec fn read_lines(ls: Seq<Seq<char>>, n: int) -> Result<ResponseModel, ResponseModel>
    decreases n,
{
    if n <= 0 {
        Ok(fresh_response())
    } else {
        match read_lines(ls, n - 1) {
            Ok(acc) => read_line(acc, ls, n - 1),
            Err(e) => Err(e),
        }
    }
}

/// A response read from its wire text.
pub open spec fn response_of_text(text: Seq<char>) -> ResponseModel {
    match read_lines(lines(text), lines(text).len() as int) {
        Ok(r) => r,
        Err(e) => e,
    }
}

/// A response read from wire bytes, where they are UTF-8 up to the first zero.
pub open spec fn response_of_bytes(b: Seq<u8>) -> ResponseModel
    recommends
        valid_utf8(before_zero(b)),
{
    response_of_text(decode_utf8(before_zero(b)))
}

/// The text before the first zero byte of `b`.
pub fn prefix_before_zero(b: &[u8]) -> (r: Vec<u8>)
    ensures
        r@ == before_zero(b@),
{
    let mut r: Vec<u8> = Vec::new();
    let mut i: usize = 0;
    while i < b.len() && b[i] != 0
        invariant
            i <= b@.len(),
            r@ == b@.take(i as int),
            forall|k: int| 0 <= k < i ==> b@[k] != 0,
        decreases b@.len() - i,
    {
        r.push(b[i]);
        i = i + 1;
        assert(r@ =~= b@.take(i as int));
    }
    proof {
        lemma_before_zero(b@, i as int);
    }
    r
}

pub proof fn lemma_before_zero(b: Seq<u8>, i: int)
    requires
        0 <= i <= b.len(),
        forall|k: int| 0 <= k < i ==> b[k] != 0,
        i == b.len() || b[i] == 0,
    ensures
        before_zero(b) == b.take(i),
    decreases i,
{
    if i == 0 {
        assert(b.take(0) =~= Seq::<u8>::empty());
    } else {
        let t = b.drop_first();
        assert forall|k: int| 0 <= k < i - 1 implies t[k] != 0 by {
            assert(t[k] == b[k + 1]);
        }
        lemma_before_zero(t, i - 1);
        assert(seq![b[0]] + t.take(i - 1) =~= b.take(i));
    }
}

fn entry_matches(e: &(String, String), key: &String) -> (r: bool)
    ensures
        r == (e.0@ == key@),
{
    e.0 == *key
}

impl Response {
    pub fn new() -> (r: Self)
        ensures
            r@ == fresh_response(),
    {
        let r = Self {
            protocol: String::from_str("HTTP/1.1"),
            status: 200,
            body: String::new(),
            headers: Vec::new(),
        };
        assert(r@.headers =~= Seq::<(Seq<char>, Seq<char>)>::empty());
        r
    }

    pub fn status(self, status: u16) -> (r: Self)
        ensures
            r@ == (ResponseModel { status, ..self@ }),
    {
        Response { status, ..self }
    }

    /// Sets the body and its `Content-Length`.
    pub fn body(self, body: &str) -> (r: Self)
        ensures
            r@ == with_body(self@, body@),
    {
        let len = decimal_string(body.as_bytes().len() as u128);
        let r = self.set_header("Content-Length", len.as_str());
        Response { body: String::from_str(body), ..r }
    }

    pub fn set_header(self, key: &str, value: &str) -> (r: Self)
        ensures
            r@ == (ResponseModel { headers: with_header(self@.headers, key@, value@), ..self@ }),
    {
        let key_s = String::from_str(key);
        let ghost hs = self@.headers;
        let ghost f = entry_setter(key@, value@);
        let mut out: Vec<(String, String)> = Vec::new();
        let mut found = false;
        let mut i: usize = 0;
        while i < self.headers.len()
            invariant
                i <= self.headers@.len(),
                hs == entry_views(self.headers@),
                key_s@ == key@,
                f == entry_setter(key@, value@),
                entry_views(out@) == hs.take(i as int).map_values(f),
                found <==> exists|k: int| 0 <= k < i && (#[trigger] hs[k]).0 == key@,
            decreases self.headers@.len() - i,
        {
            let e = &self.headers[i];
            let ghost before = out@;
            assert(hs[i as int] == (e.0@, e.1@));
            let item = if entry_matches(e, &key_s) {
                found = true;
                (key_s.clone(), String::from_str(value))
            } else {
                (e.0.clone(), e.1.clone())
            };
            assert((item.0@, item.1@) == f(hs[i as int]));
            out.push(item);
            i = i + 1;
            proof {
                assert(hs.take(i as int).map_values(f) =~= hs.take(i - 1).map_values(f).push(
                    f(hs[i - 1]),
                ));
                assert(entry_views(out@) =~= entry_views(before).push(f(hs[i - 1])));
            }
        }
        assert(hs.take(i as int) =~= hs);
        if !found {
            let ghost before = self.headers@;
            let mut headers = self.headers;
            headers.push((key_s, String::from_str(value)));
            assert(entry_views(headers@) =~= entry_views(before).push((key@, value@)));
            Response { headers, ..self }
        } else {
            Response { headers: out, ..self }
        }
    }

    /// The value of the first header under `key`; empty where there is none.
    pub fn get_header(&self, key: &str) -> (r: String)
        ensures
            r@ == header_value(self@.headers, key@),
    {
        let key_s = String::from_str(key);
        let ghost hs = self@.headers;
        let mut i: usize = 0;
        assert(hs.skip(0) =~= hs);
        while i < self.headers.len()
            invariant
                i <= self.headers@.len(),
                hs == entry_views(self.headers@),
                key_s@ == key@,
                header_value(hs, key@) == header_value(hs.skip(i as int), key@),
            decreases self.headers@.len() - i,
        {
            assert(hs.skip(i as int).drop_first() =~= hs.skip(i + 1));
            if entry_matches(&self.headers[i], &key_s) {
                return self.headers[i].1.clone();
            }
            i = i + 1;
        }
        assert(hs.skip(i as int) =~= Seq::<(Seq<char>, Seq<char>)>::empty());
        String::new()
    }

    /// Adds a `Set-Cookie` entry for `cookie` after the headers already set;
    /// each cookie gets an entry of its own.
    pub fn set_cookie(self, cookie: Cookie) -> (r: Self)
        ensures
            r@ == (ResponseModel {
                headers: self@.headers.push(("Set-Cookie"@, cookie_text(cookie, expiry_text(cookie)))),
                ..self@
            }),
    {
        let line = cookie.to_string();
        let ghost before = self.headers@;
        let mut headers = self.headers;
        headers.push((String::from_str("Set-Cookie"), line));
        assert(entry_views(headers@) =~= entry_views(before).push(
            ("Set-Cookie"@, cookie_text(cookie, expiry_text(cookie))),
        ));
        Response { headers, ..self }
    }

    /// The value of cookie `key` in this response's `Cookie` header.
    pub fn get_cookie(&self, key: &str) -> (r: String)
        ensures
            r@ == cookie_value(header_value(self@.headers, "Cookie"@), key@),
    {
        let header = self.get_header("Cookie");
        find_cookie(header.as_str(), key)
    }

    /// The header lines of this response.
    fn header_lines(&self) -> (r: String)
        ensures
            r@ == headers_text(self@.headers),
    {
        let ghost hs = self@.headers;
        let mut s = String::new();
        let mut i: usize = 0;
        while i < self.headers.len()
            invariant
                i <= self.headers@.len(),
                hs == entry_views(self.headers@),
                s@ == headers_text(hs.take(i as int)),
            decreases self.headers@.len() - i,
        {
            s.append(self.headers[i].0.as_str());
            s.append(": ");
            s.append(self.headers[i].1.as_str());
            s.append("\r\n");
            i = i + 1;
            assert(hs.take(i as int).drop_last() =~= hs.take(i - 1));
        }
        assert(hs.take(i as int) =~= hs);
        s
    }

    /// The text of this response under its own protocol.
    pub fn raw(&self) -> (r: String)
        ensures
            r@ == raw_text(self@),
    {
        let mut s = self.protocol.clone();
        s.append(" ");
        let st = decimal_string(self.status as u128);
        s.append(st.as_str());
        s.append("\r\n");
        let hs = self.header_lines();
        s.append(hs.as_str());
        s.append("\r\n");
        s.append(self.body.as_str());
        s
    }

    /// The wire bytes of this response, always under `HTTP/1.1`.
    pub fn to_bytes(&self) -> (r: Vec<u8>)
        ensures
            r@ == encode_utf8(response_text(self@)),
    {
        let mut s = String::from_str("HTTP/1.1 ");
        let st = decimal_string(self.status as u128);
        s.append(st.as_str());
        s.append("\r\n");
        let hs = self.header_lines();
        s.append(hs.as_str());
        s.append("\r\n");
        s.append(self.body.as_str());
        s.as_str().as_bytes_vec()
    }

    /// Reads a response from wire bytes, up to the first zero byte. Text
    /// that is not UTF-8 gives a 500 response.
    pub fn new_from_bytes(response_bytes: &Vec<u8>) -> (r: Response)
        ensures
            valid_utf8(before_zero(response_bytes@)) ==> r@ == response_of_bytes(response_bytes@),
            !valid_utf8(before_zero(response_bytes@)) ==> exists|e: Seq<char>|
                r@ == status_response(500, "internal server error: "@ + e),
    {
        let valid = prefix_before_zero(response_bytes.as_slice());
        match utf8_text(valid) {
            Err(e) => {
                let mut msg = String::from_str("internal server error: ");
                msg.append(e.as_str());
                let r = Response::new().status(500).body(msg.as_str());
                proof {
                    let m = "internal server error: "@ + e@;
                    assert(r@ == status_response(500, m));
                }
                r
            },
            Ok(text) => {
                let ls = lines_of(text.as_str());
                Response::read_text_lines(&ls)
            },
        }
    }

    /// Reads a response from the lines of its wire text.
    fn read_text_lines(ls: &Vec<String>) -> (r: Response)
        ensures
            r@ == (match read_lines(views(ls@), ls@.len() as int) {
                Ok(m) => m,
                Err(e) => e,
            }),
    {
        let ghost v = views(ls@);
        let n = ls.len();
        let mut response = Response::new();
        let mut i: usize = 0;
        while i < n
            invariant
                i <= n == ls@.len(),
                v == views(ls@),
                read_lines(v, i as int) == Ok::<ResponseModel, ResponseModel>(response@),
            decreases n - i,
        {
            let line = ls[i].as_str();
            assert(v[i as int] == line@);
            if line.is_empty() {
            } else if i == 0 {
                let parts = split_text(line, ' ');
                if parts.len() < 2 {
                    let r = Response::new().status(400).body(
                        "malformed response, more than 2 parts in status line",
                    );
                    proof {
                        lemma_read_lines_err(v, i + 1, n as int);
                    }
                    return r;
                }
                match parse_u16_text(parts[1].as_str()) {
                    Some(status) => {
                        response.status = status;
                        response.protocol = parts[0].clone();
                    },
                    None => {
                        let r = Response::new().status(400).body(
                            "malformed response, status is not a number",
                        );
                        proof {
                            lemma_read_lines_err(v, i + 1, n as int);
                        }
                        return r;
                    },
                }
            } else if i == n - 1 {
                let t = trim_text(line);
                if !t.as_str().is_empty() {
                    response.body = t;
                }
            } else {
                match split_once_text(line, ':') {
                    Some((k, val)) => {
                        let ghost before = response.headers@;
                        response.headers.push((trim_text(k.as_str()), trim_text(val.as_str())));
                        assert(entry_views(response.headers@) =~= entry_views(before).push(
                            (trim(k@), trim(val@)),
                        ));
                    },
                    None => {},
                }
            }
            i = i + 1;
        }
        response
    }
}

/// Once reading stops early, the response it stopped with stands.
proof fn lemma_read_lines_err(ls: Seq<Seq<char>>, i: int, n: int)
    requires
        1 <= i <= n,
        read_lines(ls, i) is Err,
    ensures
        read_lines(ls, n) == read_lines(ls, i),
    decreases n - i,
{
    if i < n {
        lemma_read_lines_err(ls, i, n - 1);
    }
}

/// The response sent for a route that is not registered.
pub fn not_found() -> (r: Response)
    ensures
        r@ == (ResponseModel { status: 404, body: "Not Found"@, ..fresh_response() }),
{
    let r = Response::new();
    Response { status: 404, body: String::from_str("Not Found"), ..r }
}

} // verus!
