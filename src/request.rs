//! Requests: the structured value, and its parser from a fixed-size read.
use vstd::prelude::*;
use vstd::utf8::{decode_utf8, valid_utf8};

use crate::context::Contextable;
use crate::cookie::{cookie_value, find_cookie};
use crate::maps::{
    map_entries, map_get, map_insert, map_new, no_entries, string_map_entries, StringMap,
};
use crate::method::HttpMethod;
use crate::response::{
    before_zero, entry_views, headers_text, prefix_before_zero, status_response, Response,
    ResponseModel,
};
use crate::text::{
    lines, lines_of, split_on, split_once, split_once_text, split_text, trim, trim_text, utf8_text,
    views, without_white, without_white_text,
};

verus! {

/// The size of the single read that a request is parsed from.
pub const REQUEST_BUFFER_LEN: usize = 1024;

/// The bytes of one read from a connection; unused bytes are zero.
pub type RequestBuffer = [u8; REQUEST_BUFFER_LEN];

pub type Headers = StringMap;

pub type Params = StringMap;

pub type Context = StringMap;

/// A parsed request.
#[derive(Debug)]
pub struct Request {
    pub host: String,
    /// The route key, `"{method} {path}"`.
    pub method_and_path: String,
    pub method: HttpMethod,
    /// The path without its query.
    pub path: String,
    pub protocol: String,
    pub body: String,
    pub headers: Headers,
    /// The query parameters.
    pub params: Params,
    /// Values that middleware passes along while the request is handled.
    pub context: Context,
}

/// What a request holds.
pub struct RequestModel {
    pub host: Seq<char>,
    pub method_and_path: Seq<char>,
    pub method: HttpMethod,
    pub path: Seq<char>,
    pub protocol: Seq<char>,
    pub body: Seq<char>,
    pub headers: Map<Seq<char>, Seq<char>>,
    pub params: Map<Seq<char>, Seq<char>>,
    pub context: Map<Seq<char>, Seq<char>>,
}

impl View for Request {
    type V = RequestModel;

    open spec fn view(&self) -> RequestModel {
        RequestModel {
            host: self.host@,
            method_and_path: self.method_and_path@,
            method: self.method,
            path: self.path@,
            protocol: self.protocol@,
            body: self.body@,
            headers: string_map_entries(self.headers),
            params: string_map_entries(self.params),
            context: string_map_entries(self.context),
        }
    }
}

pub open spec fn response_opt_view(r: Option<Response>) -> Option<ResponseModel> {
    match r {
        Some(x) => Some(x@),
        None => None,
    }
}

/// The value under `key`, or empty text where there is none.
pub open spec fn value_or_empty(m: Map<Seq<char>, Seq<char>>, key: Seq<char>) -> Seq<char> {
    if m.contains_key(key) {
        m[key]
    } else {
        Seq::empty()
    }
}

/// The request that parsing starts from: everything empty, method GET.
pub open spec fn blank_request() -> RequestModel {
    RequestModel {
        host: Seq::empty(),
        method_and_path: Seq::empty(),
        method: HttpMethod::GET,
        path: Seq::empty(),
        protocol: Seq::empty(),
        body: Seq::empty(),
        headers: no_entries(),
        params: no_entries(),
        context: no_entries(),
    }
}

/// The method that a token names, if it names one; case matters.
pub open spec fn method_of(token: Seq<char>) -> Option<HttpMethod> {
    if token == "GET"@ {
        Some(HttpMethod::GET)
    } else if token == "POST"@ {
        Some(HttpMethod::POST)
    } else if token == "PUT"@ {
        Some(HttpMethod::PUT)
    } else if token == "DELETE"@ {
        Some(HttpMethod::DELETE)
    } else if token == "PATCH"@ {
        Some(HttpMethod::PATCH)
    } else {
        None
    }
}

/// A query piece `key=value` added to the parameters; a piece that does not
/// split into exactly two parts at `=` is dropped.
pub open spec fn add_param(m: Map<Seq<char>, Seq<char>>, piece: Seq<char>) -> Map<
    Seq<char>,
    Seq<char>,
> {
    let kv = split_on(piece, '=');
    if kv.len() == 2 {
        m.insert(kv[0], kv[1])
    } else {
        m
    }
}

pub open spec fn param_map(pieces: Seq<Seq<char>>) -> Map<Seq<char>, Seq<char>>
    decreases pieces.len(),
{
    if pieces.len() == 0 {
        no_entries()
    } else {
        add_param(param_map(pieces.drop_last()), pieces.last())
    }
}

/// The parameters of a query string: its pieces between `&`, in order.
pub open spec fn query_params(query: Seq<char>) -> Map<Seq<char>, Seq<char>> {
    param_map(split_on(query, '&'))
}

/// A header line added to the headers: with its white space removed it
/// must split into exactly two parts at `:`, else it is dropped.
pub open spec fn add_header(m: Map<Seq<char>, Seq<char>>, line: Seq<char>) -> Map<
    Seq<char>,
    Seq<char>,
> {
    let parts = split_on(without_white(line), ':');
    if line.len() != 0 && parts.len() == 2 {
        m.insert(parts[0], parts[1])
    } else {
        m
    }
}

pub open spec fn header_map(ls: Seq<Seq<char>>) -> Map<Seq<char>, Seq<char>>
    decreases ls.len(),
{
    if ls.len() == 0 {
        no_entries()
    } else {
        add_header(header_map(ls.drop_last()), ls.last())
    }
}

/// The body that the final line gives: the line, unless it is blank.
pub open spec fn body_of(line: Seq<char>) -> Seq<char> {
    if trim(line).len() == 0 {
        Seq::empty()
    } else {
        line
    }
}

pub open spec fn malformed_line_message() -> Seq<char> {
    "malformed request protocol, method, or path is missing or malformed ensure request string follows the following convention 'GET /path/to/resource HTTP/1.1' or '{method} {path} {protocol}'"@
}

pub open spec fn protocol_message() -> Seq<char> {
    "malformed request: protocol must be HTTP/1.1, server does not support other protocols at this time"@
}

pub open spec fn method_message() -> Seq<char> {
    "malformed request: method was extracted but found to be invalid"@
}

pub open spec fn decode_message() -> Seq<char> {
    "failed to parse request"@
}

/// The path of a request target and its query, split at the first `?`.
pub open spec fn target_parts(target: Seq<char>) -> (Seq<char>, Seq<char>) {
    match split_once(target, '?') {
        Some((p, q)) => (p, q),
        None => (target, Seq::empty()),
    }
}

/// A request parsed from its text, and the response that stops its
/// handling where the text is malformed.
///
/// The first line must hold exactly three tokens between spaces: method,
/// target and protocol. The target's path and query set the route key and
/// the parameters before the protocol, then the method, are checked. The
/// lines between the first and the last are headers; the last is the body.
pub open spec fn parse_text(text: Seq<char>) -> (RequestModel, Option<ResponseModel>) {
    let ls = lines(text);
    if ls.len() == 0 {
        (blank_request(), None)
    } else {
        let toks = split_on(ls[0], ' ');
        if toks.len() != 3 {
            (blank_request(), Some(status_response(400, malformed_line_message())))
        } else {
            let (path, query) = target_parts(toks[1]);
            let r1 = RequestModel {
                path,
                method_and_path: toks[0] + " "@ + path,
                params: query_params(query),
                ..blank_request()
            };
            if toks[2] != "HTTP/1.1"@ {
                (r1, Some(status_response(400, protocol_message())))
            } else {
                match method_of(toks[0]) {
                    None => (r1, Some(status_response(400, method_message()))),
                    Some(m) => (
                        RequestModel {
                            method: m,
                            protocol: toks[2],
                            headers: if ls.len() >= 2 {
                                header_map(ls.subrange(1, ls.len() - 1))
                            } else {
                                no_entries()
                            },
                            body: if ls.len() >= 2 {
                                body_of(ls.last())
                            } else {
                                Seq::empty()
                            },
                            ..r1
                        },
                        None,
                    ),
                }
            }
        }
    }
}

/// A request parsed from the bytes of a read: the bytes before the first
/// zero must be UTF-8, else the response is a 400.
pub open spec fn parse_request(bytes: Seq<u8>) -> (RequestModel, Option<ResponseModel>) {
    let valid = before_zero(bytes);
    if !valid_utf8(valid) {
        (blank_request(), Some(status_response(400, decode_message())))
    } else {
        parse_text(decode_utf8(valid))
    }
}

/// An order of the entries of `m`: each once, each as `m` holds it.
pub open spec fn is_listing(es: Seq<(Seq<char>, Seq<char>)>, m: Map<Seq<char>, Seq<char>>) -> bool {
    &&& forall|i: int|
        0 <= i < es.len() ==> m.contains_key((#[trigger] es[i]).0) && m[es[i].0] == es[i].1
    &&& forall|i: int, j: int| 0 <= i < j < es.len() ==> (#[trigger] es[i]).0 != (#[trigger] es[j]).0
    &&& forall|k: Seq<char>| #[trigger] m.contains_key(k) ==> exists|i: int| 0 <= i < es.len() && (#[trigger] es[i]).0 == k
}

/// The wire text of a request with its headers in the order `es`.
pub open spec fn request_text(r: RequestModel, es: Seq<(Seq<char>, Seq<char>)>) -> Seq<char> {
    r.method.name() + " "@ + r.path + " "@ + r.protocol + "\r\n"@ + headers_text(es) + "\r\n"@
        + r.body
}

fn method_from(token: &str) -> (r: Option<HttpMethod>)
    ensures
        r == method_of(token@),
{
    let t = String::from_str(token);
    if t == String::from_str("GET") {
        Some(HttpMethod::GET)
    } else if t == String::from_str("POST") {
        Some(HttpMethod::POST)
    } else if t == String::from_str("PUT") {
        Some(HttpMethod::PUT)
    } else if t == String::from_str("DELETE") {
        Some(HttpMethod::DELETE)
    } else if t == String::from_str("PATCH") {
        Some(HttpMethod::PATCH)
    } else {
        None
    }
}

fn insert_param(m: &mut StringMap, piece: &str)
    ensures
        string_map_entries(*final(m)) == add_param(string_map_entries(*old(m)), piece@),
{
    let kv = split_text(piece, '=');
    if kv.len() == 2 {
        map_insert(m, kv[0].clone(), kv[1].clone());
    }
}

/// The parameters of a query string.
pub fn parse_query(query: &str) -> (r: Params)
    ensures
        string_map_entries(r) == query_params(query@),
{
    let pieces = split_text(query, '&');
    let ghost v = views(pieces@);
    let mut m = map_new();
    let mut i: usize = 0;
    while i < pieces.len()
        invariant
            i <= pieces@.len(),
            v == views(pieces@),
            v == split_on(query@, '&'),
            string_map_entries(m) == param_map(v.take(i as int)),
        decreases pieces@.len() - i,
    {
        proof {
            assert(v.take(i + 1).drop_last() =~= v.take(i as int));
            assert(v.take(i + 1).last() == pieces@[i as int]@);
        }
        insert_param(&mut m, pieces[i].as_str());
        i = i + 1;
    }
    assert(v.take(i as int) =~= v);
    m
}

fn insert_header(m: &mut StringMap, line: &str)
    ensures
        string_map_entries(*final(m)) == add_header(string_map_entries(*old(m)), line@),
{
    if line.is_empty() {
        return;
    }
    let t = without_white_text(line);
    let parts = split_text(t.as_str(), ':');
    if parts.len() == 2 {
        map_insert(m, parts[0].clone(), parts[1].clone());
    }
}

/// The headers of lines `from..to`.
fn parse_headers(ls: &Vec<String>, from: usize, to: usize) -> (r: Headers)
    requires
        from <= to <= ls@.len(),
    ensures
        string_map_entries(r) == header_map(views(ls@).subrange(from as int, to as int)),
{
    let ghost v = views(ls@);
    let mut m = map_new();
    let mut i: usize = from;
    assert(v.subrange(from as int, from as int) =~= Seq::<Seq<char>>::empty());
    while i < to
        invariant
            from <= i <= to <= ls@.len(),
            v == views(ls@),
            string_map_entries(m) == header_map(v.subrange(from as int, i as int)),
        decreases to - i,
    {
        proof {
            assert(v.subrange(from as int, i + 1).drop_last() =~= v.subrange(from as int, i as int));
            assert(v.subrange(from as int, i + 1).last() == ls@[i as int]@);
        }
        insert_header(&mut m, ls[i].as_str());
        i = i + 1;
    }
    m
}

fn error_response(message: &str) -> (r: Response)
    ensures
        r@ == status_response(400, message@),
{
    Response::new().status(400).body(message)
}

impl Request {
    /// A request to `host`: method GET, protocol `HTTP/1.1`, everything
    /// else empty.
    pub fn new(host: &String) -> (r: Self)
        ensures
            r@ == (RequestModel { host: host@, protocol: "HTTP/1.1"@, ..blank_request() }),
    {
        Request {
            host: host.clone(),
            method_and_path: String::new(),
            method: HttpMethod::GET,
            path: String::new(),
            protocol: String::from_str("HTTP/1.1"),
            body: String::new(),
            headers: map_new(),
            params: map_new(),
            context: map_new(),
        }
    }

    fn blank() -> (r: Self)
        ensures
            r@ == blank_request(),
    {
        Request {
            host: String::new(),
            method_and_path: String::new(),
            method: HttpMethod::GET,
            path: String::new(),
            protocol: String::new(),
            body: String::new(),
            headers: map_new(),
            params: map_new(),
            context: map_new(),
        }
    }

    pub fn method(self, method: HttpMethod) -> (r: Self)
        ensures
            r@ == (RequestModel { method, ..self@ }),
    {
        Request { method, ..self }
    }

    pub fn path(self, path: &str) -> (r: Self)
        ensures
            r@ == (RequestModel { path: path@, ..self@ }),
    {
        Request { path: String::from_str(path), ..self }
    }

    pub fn body(self, body: &str) -> (r: Self)
        ensures
            r@ == (RequestModel { body: body@, ..self@ }),
    {
        Request { body: String::from_str(body), ..self }
    }

    /// The value of header `key`, or empty text.
    pub fn get_header(&self, key: &str) -> (r: String)
        ensures
            r@ == value_or_empty(self@.headers, key@),
    {
        match map_get(&self.headers, key) {
            Some(v) => v,
            None => String::new(),
        }
    }

    pub fn header(self, key: &str, value: &str) -> (r: Self)
        ensures
            r@ == (RequestModel { headers: self@.headers.insert(key@, value@), ..self@ }),
    {
        let mut r = self;
        map_insert(&mut r.headers, String::from_str(key), String::from_str(value));
        r
    }

    pub fn get_url(&self) -> (r: String)
        ensures
            r@ == self@.host + self@.path,
    {
        let mut s = self.host.clone();
        s.append(self.path.as_str());
        s
    }

    pub fn get_host(&self) -> (r: String)
        ensures
            r@ == self@.host,
    {
        self.host.clone()
    }

    /// The wire text of this request; the headers come in the order that
    /// the map gives them.
    pub fn get_request_string(&self) -> (r: String)
        ensures
            exists|es: Seq<(Seq<char>, Seq<char>)>|
                is_listing(es, self@.headers) && r@ == request_text(self@, es),
    {
        let entries = map_entries(&self.headers);
        let ghost es = entry_views(entries@);
        let mut hs = String::new();
        let mut i: usize = 0;
        while i < entries.len()
            invariant
                i <= entries@.len(),
                es == entry_views(entries@),
                hs@ == headers_text(es.take(i as int)),
            decreases entries@.len() - i,
        {
            hs.append(entries[i].0.as_str());
            hs.append(": ");
            hs.append(entries[i].1.as_str());
            hs.append("\r\n");
            i = i + 1;
            assert(es.take(i as int).drop_last() =~= es.take(i - 1));
        }
        assert(es.take(i as int) =~= es);
        let mut s = String::from_str(self.method.as_str());
        s.append(" ");
        s.append(self.path.as_str());
        s.append(" ");
        s.append(self.protocol.as_str());
        s.append("\r\n");
        s.append(hs.as_str());
        s.append("\r\n");
        s.append(self.body.as_str());
        proof {
            assert forall|k: int| 0 <= k < es.len() implies self@.headers.contains_key(
                (#[trigger] es[k]).0,
            ) && self@.headers[es[k].0] == es[k].1 by {
                assert(es[k] == (entries@[k].0@, entries@[k].1@));
            }
            assert forall|k: int, j: int| 0 <= k < j < es.len() implies (#[trigger] es[k]).0
                != (#[trigger] es[j]).0 by {
                assert(es[k].0 == entries@[k].0@);
                assert(es[j].0 == entries@[j].0@);
            }
            assert forall|k: Seq<char>| #[trigger] self@.headers.contains_key(k) implies exists|
                j: int,
            | 0 <= j < es.len() && (#[trigger] es[j]).0 == k by {
                let j = choose|j: int| 0 <= j < entries@.len() && (#[trigger] entries@[j]).0@ == k;
                assert(es[j].0 == k);
            }
            assert(is_listing(es, self@.headers));
            assert(s@ =~= request_text(self@, es));
        }
        s
    }

    /// Parses a request from the bytes of one read; see `parse_request`.
    pub fn new_from_bytes(request_bytes: RequestBuffer) -> (r: (Request, Option<Response>))
        ensures
            (r.0@, response_opt_view(r.1)) == parse_request(request_bytes@),
    {
        Request::parse_request_bytes(request_bytes)
    }

    /// Parses a request from the bytes of one read, up to the first zero
    /// byte; see `parse_request`.
    pub fn parse_request_bytes(request_bytes: RequestBuffer) -> (r: (Request, Option<Response>))
        ensures
            (r.0@, response_opt_view(r.1)) == parse_request(request_bytes@),
    {
        let valid = prefix_before_zero(request_bytes.as_slice());
        match utf8_text(valid) {
            Err(_) => (Request::blank(), Some(error_response("failed to parse request"))),
            Ok(text) => Request::parse_request_text(text.as_str()),
        }
    }

    /// Parses a request from its text; see `parse_text`.
    pub fn parse_request_text(text: &str) -> (r: (Request, Option<Response>))
        ensures
            (r.0@, response_opt_view(r.1)) == parse_text(text@),
    {
        let ls = lines_of(text);
        let ghost v = views(ls@);
        let mut request = Request::blank();
        let n = ls.len();
        if n == 0 {
            return (request, None);
        }
        assert(v[0] == ls@[0]@);
        let toks = split_text(ls[0].as_str(), ' ');
        if toks.len() != 3 {
            return (
                request,
                Some(
                    error_response(
                        "malformed request protocol, method, or path is missing or malformed ensure request string follows the following convention 'GET /path/to/resource HTTP/1.1' or '{method} {path} {protocol}'",
                    ),
                ),
            );
        }
        let (path, query) = match split_once_text(toks[1].as_str(), '?') {
            Some((p, q)) => (p, q),
            None => (toks[1].clone(), String::new()),
        };
        let mut key = toks[0].clone();
        key.append(" ");
        key.append(path.as_str());
        request.method_and_path = key;
        request.path = path;
        request.params = parse_query(query.as_str());
        if !(toks[2] == String::from_str("HTTP/1.1")) {
            return (
                request,
                Some(
                    error_response(
                        "malformed request: protocol must be HTTP/1.1, server does not support other protocols at this time",
                    ),
                ),
            );
        }
        match method_from(toks[0].as_str()) {
            None => {
                return (
                    request,
                    Some(
                        error_response(
                            "malformed request: method was extracted but found to be invalid",
                        ),
                    ),
                );
            },
            Some(m) => {
                request.method = m;
            },
        }
        request.protocol = toks[2].clone();
        if n >= 2 {
            request.headers = parse_headers(&ls, 1, n - 1);
            let last = ls[n - 1].as_str();
            assert(v.last() == last@);
            let t = trim_text(last);
            if !t.as_str().is_empty() {
                request.body = String::from_str(last);
            }
        }
        (request, None)
    }

    /// The context value under `key`, or empty text.
    pub fn context_value(&self, key: &str) -> (r: String)
        ensures
            r@ == value_or_empty(self@.context, key@),
    {
        match map_get(&self.context, key) {
            Some(v) => v,
            None => String::new(),
        }
    }

    /// Sets the context value under `key`.
    pub fn put_context(&mut self, key: &str, value: String)
        ensures
            final(self)@ == (RequestModel {
                context: old(self)@.context.insert(key@, value@),
                ..old(self)@
            }),
    {
        map_insert(&mut self.context, String::from_str(key), value);
    }

    /// The context value under the key that `key` names, or empty text.
    pub fn get_context<K: Contextable>(&self, key: K) -> (r: String)
        ensures
            exists|k: Seq<char>| r@ == value_or_empty(self@.context, k),
    {
        self.context_value(key.key())
    }

    /// Sets the context value under the key that `key` names.
    pub fn set_context<K: Contextable>(&mut self, key: K, value: String)
        ensures
            exists|k: Seq<char>|
                final(self)@ == (RequestModel {
                    context: #[trigger] old(self)@.context.insert(k, value@),
                    ..old(self)@
                }),
    {
        self.put_context(key.key(), value)
    }

    /// The value of cookie `name` in this request's `Cookie` header.
    pub fn get_cookie(&self, name: &str) -> (r: String)
        ensures
            r@ == cookie_value(value_or_empty(self@.headers, "Cookie"@), name@),
    {
        let header = self.get_header("Cookie");
        find_cookie(header.as_str(), name)
    }
}

/// Parsing depends on the bytes alone: the same buffer parsed twice gives
/// equal requests, and equal responses where it is refused.
pub proof fn lemma_parse_twice(
    b: Seq<u8>,
    first: (RequestModel, Option<ResponseModel>),
    second: (RequestModel, Option<ResponseModel>),
)
    requires
        first == parse_request(b),
        second == parse_request(b),
    ensures
        first == second,
{
}

/// A parsed request starts with an empty context, so nothing that another
/// request's middleware stored can be seen in it.
pub proof fn lemma_parsed_context_empty(b: Seq<u8>)
    ensures
        parse_request(b).0.context == no_entries(),
{
}

} // verus!
