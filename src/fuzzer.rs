//! Random requests for exercising a running server.
use vstd::prelude::*;

verus! {

/// Relies on rand::thread_rng and rand::Rng::gen_range, which draws a
/// number below `bound`; the range must not be empty.
#[verifier::external_body]
fn random_below(bound: usize) -> (drawn: usize)
    requires
        bound > 0,
    ensures
        drawn < bound,
{
    rand::Rng::gen_range(&mut rand::thread_rng(), 0..bound)
}

/// How many draws in a hundred keep the well-formed choice.
pub const DEVIATE_ONE_IN: usize = 100;

/// The headers a fuzzed request may carry.
pub open spec fn header_option(index: nat) -> Seq<char> {
    if index == 0 {
        "Host: localhost\r\n"@
    } else if index == 1 {
        "Connection: close\r\n"@
    } else if index == 2 {
        "User-Agent: Mozilla/5.0\r\n"@
    } else if index == 3 {
        "Accept: text/html\r\n"@
    } else {
        "Accept-Language: en-US\r\n"@
    }
}

pub open spec fn malformed_path() -> Seq<char> {
    "malformed request line"@
}

pub open spec fn malformed_header() -> Seq<char> {
    "malformed header line"@
}

/// A path choice: one of `paths`, or, one draw in a hundred, a malformed line.
pub open spec fn path_choice(paths: Seq<String>, index: nat, deviate: nat) -> Seq<char> {
    if deviate == 0 {
        malformed_path()
    } else {
        paths[index as int]@
    }
}

/// A header choice: one of the five, or, one draw in a hundred, a
/// malformed line.
pub open spec fn header_choice(index: nat, deviate: nat) -> Seq<char> {
    if deviate == 0 {
        malformed_header()
    } else {
        header_option(index)
    }
}

/// Whether `t` is one header choice.
pub open spec fn is_header_choice(t: Seq<char>) -> bool {
    exists|index: nat, deviate: nat| index < 5 && #[trigger] header_choice(index, deviate) == t
}

/// The concatenation of `parts`.
pub open spec fn joined(parts: Seq<Seq<char>>) -> Seq<char>
    decreases parts.len(),
{
    if parts.len() == 0 {
        Seq::empty()
    } else {
        joined(parts.drop_last()) + parts.last()
    }
}

/// Whether `t` is a header block: fewer than five header choices in a row.
pub open spec fn is_header_block(t: Seq<char>) -> bool {
    exists|parts: Seq<Seq<char>>|
        parts.len() < 5 && (forall|i: int| 0 <= i < parts.len() ==> is_header_choice(#[trigger] parts[i]))
            && #[trigger] joined(parts) == t
}

/// The text of a fuzzed request: its first line with `path`, its headers and
/// an empty body.
pub open spec fn fuzz_request_text(path: Seq<char>, headers: Seq<char>) -> Seq<char> {
    path + " HTTP/1.1\r\n"@ + headers + "\r\n"@
}

/// Sends random, mostly well-formed requests to a host.
pub struct Fuzzer {
    pub host: String,
    pub failed: bool,
    pub paths: Vec<String>,
}

impl Fuzzer {
    pub fn new(host: String) -> (r: Fuzzer)
        ensures
            r.host == host,
            !r.failed,
            r.paths@.len() == 0,
    {
        Fuzzer { host, failed: false, paths: Vec::new() }
    }

    /// Sets the paths to draw from; gives the fuzzer back for chaining.
    pub fn set_paths(&mut self, paths: Vec<String>) -> (r: &mut Fuzzer)
        ensures
            r.paths == paths,
            r.host == old(self).host,
            r.failed == old(self).failed,
            *final(self) == *final(r),
    {
        self.paths = paths;
        self
    }

    /// The path for draws `index` and `deviate`.
    pub fn pick_path(&self, index: usize, deviate: usize) -> (r: String)
        requires
            index < self.paths@.len(),
        ensures
            r@ == path_choice(self.paths@, index as nat, deviate as nat),
    {
        if deviate == 0 {
            String::from_str("malformed request line")
        } else {
            self.paths[index].clone()
        }
    }

    /// The header line for draws `index` and `deviate`.
    pub fn pick_header(index: usize, deviate: usize) -> (r: String)
        requires
            index < 5,
        ensures
            r@ == header_choice(index as nat, deviate as nat),
    {
        if deviate == 0 {
            String::from_str("malformed header line")
        } else if index == 0 {
            String::from_str("Host: localhost\r\n")
        } else if index == 1 {
            String::from_str("Connection: close\r\n")
        } else if index == 2 {
            String::from_str("User-Agent: Mozilla/5.0\r\n")
        } else if index == 3 {
            String::from_str("Accept: text/html\r\n")
        } else {
            String::from_str("Accept-Language: en-US\r\n")
        }
    }

    /// One of the paths, or now and then a malformed line.
    pub fn get_rand_path(&mut self) -> (r: String)
        requires
            old(self).paths@.len() > 0,
        ensures
            *final(self) == *old(self),
            exists|index: nat, deviate: nat|
                index < old(self).paths@.len() && r@ == path_choice(old(self).paths@, index, deviate),
    {
        let index = random_below(self.paths.len());
        let deviate = random_below(DEVIATE_ONE_IN);
        self.pick_path(index, deviate)
    }

    /// One header line, or now and then a malformed line.
    pub fn get_rand_header(&mut self) -> (r: String)
        ensures
            *final(self) == *old(self),
            is_header_choice(r@),
    {
        let index = random_below(5);
        let deviate = random_below(DEVIATE_ONE_IN);
        let r = Fuzzer::pick_header(index, deviate);
        assert(header_choice(index as nat, deviate as nat) == r@);
        r
    }

    /// Up to four header lines.
    pub fn get_rand_headers(&mut self) -> (r: String)
        ensures
            *final(self) == *old(self),
            is_header_block(r@),
    {
        let count = random_below(5);
        let mut headers = String::new();
        let ghost mut parts: Seq<Seq<char>> = Seq::empty();
        let mut i: usize = 0;
        while i < count
            invariant
                i <= count < 5,
                *self == *old(self),
                parts.len() == i,
                forall|k: int| 0 <= k < parts.len() ==> is_header_choice(#[trigger] parts[k]),
                joined(parts) == headers@,
            decreases count - i,
        {
            let h = self.get_rand_header();
            headers.append(h.as_str());
            proof {
                let grown = parts.push(h@);
                assert(grown.drop_last() =~= parts);
                parts = grown;
            }
            i = i + 1;
        }
        headers
    }

    /// A random request: a path, up to four headers and an empty body.
    pub fn rand_req_str(&mut self) -> (r: String)
        requires
            old(self).paths@.len() > 0,
        ensures
            *final(self) == *old(self),
            exists|path: Seq<char>, headers: Seq<char>|
                (exists|index: nat, deviate: nat|
                    index < old(self).paths@.len() && path == path_choice(old(self).paths@, index, deviate))
                    && is_header_block(headers) && r@ == fuzz_request_text(path, headers),
    {
        let path = self.get_rand_path();
        let headers = self.get_rand_headers();
        let mut s = path.clone();
        s.append(" HTTP/1.1\r\n");
        s.append(headers.as_str());
        s.append("\r\n");
        assert(s@ =~= fuzz_request_text(path@, headers@));
        s
    }
}

} // verus!
