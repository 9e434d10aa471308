//! Cookies, as a handler builds them and as `Set-Cookie` carries them.
use vstd::prelude::*;

use crate::text::{decimal, decimal_string, split_on, split_once, split_once_text, split_text, views};

verus! {

/// The RFC 2822 text of the instant `unix_seconds` seconds after the Unix
/// epoch, if the `time` crate can write that instant.
pub uninterp spec fn rfc2822_date(unix_seconds: i64) -> Option<Seq<char>>;

/// Relies on time::OffsetDateTime::from_unix_timestamp, to take the instant
/// as a UTC date and time, and on its `format` with the Rfc2822 description;
/// `None` where either refuses the instant.
#[verifier::external_body]
fn format_rfc2822(unix_seconds: i64) -> (r: Option<String>)
    ensures
        r is None <==> rfc2822_date(unix_seconds) is None,
        r matches Some(s) ==> rfc2822_date(unix_seconds) == Some(s@),
{
    match time::OffsetDateTime::from_unix_timestamp(unix_seconds) {
        Ok(t) => t.format(&time::format_description::well_known::Rfc2822).ok(),
        Err(_) => None,
    }
}

/// A cookie and the attributes it is set with.
#[derive(Debug)]
pub struct Cookie {
    pub name: String,
    pub value: String,
    /// When the cookie expires, in seconds after the Unix epoch (UTC).
    pub expires: Option<i64>,
    pub max_age: Option<u64>,
    pub domain: Option<String>,
    pub path: Option<String>,
    pub secure: bool,
    pub http_only: bool,
    pub same_site: Option<String>,
}

pub open spec fn opt_view(o: Option<String>) -> Option<Seq<char>> {
    match o {
        Some(s) => Some(s@),
        None => None,
    }
}

/// `label` and the value, where there is one; nothing otherwise.
pub open spec fn attribute(label: Seq<char>, v: Option<Seq<char>>) -> Seq<char> {
    match v {
        Some(t) => label + t,
        None => Seq::empty(),
    }
}

/// `label` where `on` holds; nothing otherwise.
pub open spec fn flag(label: Seq<char>, on: bool) -> Seq<char> {
    if on {
        label
    } else {
        Seq::empty()
    }
}

/// The `Set-Cookie` text of `c`, with `expires` as the text of its expiry:
/// `name=value; Expires=..; Max-Age=..; Domain=..; Path=..; Secure; HttpOnly;
/// SameSite=..`, each attribute left out where it is not set.
pub open spec fn cookie_text(c: Cookie, expires: Option<Seq<char>>) -> Seq<char> {
    c.name@ + "="@ + c.value@ + attribute("; Expires="@, expires) + attribute(
        "; Max-Age="@,
        match c.max_age {
            Some(m) => Some(decimal(m as nat)),
            None => None,
        },
    ) + attribute("; Domain="@, opt_view(c.domain)) + attribute("; Path="@, opt_view(c.path))
        + flag("; Secure"@, c.secure) + flag("; HttpOnly"@, c.http_only) + attribute(
        "; SameSite="@,
        opt_view(c.same_site),
    )
}

/// The text of the expiry of `c`, where it has one that can be written.
pub open spec fn expiry_text(c: Cookie) -> Option<Seq<char>> {
    match c.expires {
        Some(t) => rfc2822_date(t),
        None => None,
    }
}

/// The value of the first cookie named `name` in a `Cookie` header: the
/// header split at `;`, each piece split once at `=`; empty where none is
/// named so.
pub open spec fn cookie_value(header: Seq<char>, name: Seq<char>) -> Seq<char> {
    first_cookie(split_on(header, ';'), name)
}

pub open spec fn first_cookie(pieces: Seq<Seq<char>>, name: Seq<char>) -> Seq<char>
    decreases pieces.len(),
{
    if pieces.len() == 0 {
        Seq::empty()
    } else {
        match split_once(pieces[0], '=') {
            Some((k, v)) => if k == name {
                v
            } else {
                first_cookie(pieces.drop_first(), name)
            },
            None => first_cookie(pieces.drop_first(), name),
        }
    }
}

/// Finds the cookie named `name` in the value of a `Cookie` header.
pub fn find_cookie(header: &str, name: &str) -> (r: String)
    ensures
        r@ == cookie_value(header@, name@),
{
    let pieces = split_text(header, ';');
    let wanted = String::from_str(name);
    let mut i: usize = 0;
    assert(views(pieces@).skip(0) =~= views(pieces@));
    while i < pieces.len()
        invariant
            i <= pieces@.len(),
            views(pieces@) == split_on(header@, ';'),
            wanted@ == name@,
            first_cookie(split_on(header@, ';'), name@) == first_cookie(
                views(pieces@).skip(i as int),
                name@,
            ),
        decreases pieces@.len() - i,
    {
        let ghost rest = views(pieces@).skip(i as int);
        assert(rest.drop_first() =~= views(pieces@).skip(i + 1));
        assert(rest[0] == pieces@[i as int]@);
        match split_once_text(pieces[i].as_str(), '=') {
            Some((k, v)) => {
                if k == wanted {
                    return v;
                }
            },
            None => {},
        }
        i = i + 1;
    }
    assert(views(pieces@).skip(i as int) =~= Seq::<Seq<char>>::empty());
    String::new()
}

fn append_attribute(s: &mut String, label: &str, v: &Option<String>)
    ensures
        final(s)@ == old(s)@ + attribute(label@, opt_view(*v)),
{
    match v {
        Some(t) => {
            s.append(label);
            s.append(t.as_str());
        },
        None => {
            assert(old(s)@ + Seq::<char>::empty() =~= old(s)@);
        },
    }
}

fn append_flag(s: &mut String, label: &str, on: bool)
    ensures
        final(s)@ == old(s)@ + flag(label@, on),
{
    if on {
        s.append(label);
    } else {
        assert(old(s)@ + Seq::<char>::empty() =~= old(s)@);
    }
}

impl Cookie {
    pub fn new(name: &str, value: &str) -> (r: Cookie)
        ensures
            r.name@ == name@,
            r.value@ == value@,
            r.expires is None,
            r.max_age is None,
            r.domain is None,
            r.path is None,
            !r.secure,
            !r.http_only,
            r.same_site is None,
    {
        Cookie {
            name: String::from_str(name),
            value: String::from_str(value),
            expires: None,
            max_age: None,
            domain: None,
            path: None,
            secure: false,
            http_only: false,
            same_site: None,
        }
    }

    /// Sets the expiry, in seconds after the Unix epoch.
    pub fn expires(self, unix_seconds: i64) -> (r: Cookie)
        ensures
            r == (Cookie { expires: Some(unix_seconds), ..self }),
    {
        Cookie { expires: Some(unix_seconds), ..self }
    }

    pub fn max_age(self, max_age: u64) -> (r: Cookie)
        ensures
            r == (Cookie { max_age: Some(max_age), ..self }),
    {
        Cookie { max_age: Some(max_age), ..self }
    }

    pub fn domain(self, domain: &str) -> (r: Cookie)
        ensures
            r.domain matches Some(d) && d@ == domain@,
            r == (Cookie { domain: r.domain, ..self }),
    {
        Cookie { domain: Some(String::from_str(domain)), ..self }
    }

    pub fn path(self, path: &str) -> (r: Cookie)
        ensures
            r.path matches Some(p) && p@ == path@,
            r == (Cookie { path: r.path, ..self }),
    {
        Cookie { path: Some(String::from_str(path)), ..self }
    }

    pub fn secure(self, secure: bool) -> (r: Cookie)
        ensures
            r == (Cookie { secure, ..self }),
    {
        Cookie { secure, ..self }
    }

    pub fn http_only(self, http_only: bool) -> (r: Cookie)
        ensures
            r == (Cookie { http_only, ..self }),
    {
        Cookie { http_only, ..self }
    }

    pub fn same_site(self, same_site: &str) -> (r: Cookie)
        ensures
            r.same_site matches Some(s) && s@ == same_site@,
            r == (Cookie { same_site: r.same_site, ..self }),
    {
        Cookie { same_site: Some(String::from_str(same_site)), ..self }
    }

    /// The `Set-Cookie` text of this cookie, with `expires` as the text of
    /// its expiry.
    pub fn render(&self, expires: Option<String>) -> (r: String)
        ensures
            r@ == cookie_text(*self, opt_view(expires)),
    {
        let mut s = self.name.clone();
        s.append("=");
        s.append(self.value.as_str());
        append_attribute(&mut s, "; Expires=", &expires);
        let max_age = match self.max_age {
            Some(m) => Some(decimal_string(m as u128)),
            None => None,
        };
        append_attribute(&mut s, "; Max-Age=", &max_age);
        append_attribute(&mut s, "; Domain=", &self.domain);
        append_attribute(&mut s, "; Path=", &self.path);
        append_flag(&mut s, "; Secure", self.secure);
        append_flag(&mut s, "; HttpOnly", self.http_only);
        append_attribute(&mut s, "; SameSite=", &self.same_site);
        s
    }

    /// The `Set-Cookie` text of this cookie. An expiry that cannot be written
    /// as an RFC 2822 date is left out.
    pub fn to_string(&self) -> (r: String)
        ensures
            r@ == cookie_text(*self, expiry_text(*self)),
    {
        let expires = match self.expires {
            Some(t) => format_rfc2822(t),
            None => None,
        };
        self.render(expires)
    }
}

} // verus!
