//! Character-level helpers shared by the request and response codecs.
use vstd::prelude::*;
use vstd::utf8::{decode_utf8, valid_utf8};

verus! {

/// The ASCII digit for `d`, which must be below ten.
pub open spec fn digit_char(d: nat) -> char {
    if d == 0 { '0' }
    else if d == 1 { '1' }
    else if d == 2 { '2' }
    else if d == 3 { '3' }
    else if d == 4 { '4' }
    else if d == 5 { '5' }
    else if d == 6 { '6' }
    else if d == 7 { '7' }
    else if d == 8 { '8' }
    else { '9' }
}

/// The decimal numeral of `n`, without sign or leading zeros.
pub open spec fn decimal(n: nat) -> Seq<char>
    decreases n,
{
    if n < 10 {
        seq![digit_char(n)]
    } else {
        decimal(n / 10).push(digit_char(n % 10))
    }
}

fn digit_str(d: u128) -> (r: &'static str)
    requires
        d < 10,
    ensures
        r@ == seq![digit_char(d as nat)],
{
    proof {
        reveal_strlit("0");
        reveal_strlit("1");
        reveal_strlit("2");
        reveal_strlit("3");
        reveal_strlit("4");
        reveal_strlit("5");
        reveal_strlit("6");
        reveal_strlit("7");
        reveal_strlit("8");
        reveal_strlit("9");
    }
    let r = if d == 0 { "0" }
    else if d == 1 { "1" }
    else if d == 2 { "2" }
    else if d == 3 { "3" }
    else if d == 4 { "4" }
    else if d == 5 { "5" }
    else if d == 6 { "6" }
    else if d == 7 { "7" }
    else if d == 8 { "8" }
    else { "9" };
    assert(r@ =~= seq![digit_char(d as nat)]);
    r
}

/// Writes `n` in decimal.
pub fn decimal_string(n: u128) -> (r: String)
    ensures
        r@ == decimal(n as nat),
    decreases n,
{
    if n < 10 {
        String::from_str(digit_str(n))
    } else {
        let mut s = decimal_string(n / 10);
        s.append(digit_str(n % 10));
        s
    }
}


/// Relies on String::push, which appends one character.
#[verifier::external_body]
pub(crate) fn push_char(s: &mut String, c: char)
    ensures
        final(s)@ == old(s)@.push(c),
{
    s.push(c);
}

/// Relies on String::from_utf8, which accepts exactly the valid UTF-8 byte
/// sequences and decodes them; a refusal carries the error's description.
#[verifier::external_body]
pub(crate) fn utf8_text(bytes: Vec<u8>) -> (r: Result<String, String>)
    ensures
        r is Ok <==> valid_utf8(bytes@),
        r matches Ok(s) ==> s@ == decode_utf8(bytes@),
{
    match String::from_utf8(bytes) {
        Ok(text) => Ok(text),
        Err(e) => Err(format!("{:?}", e)),
    }
}

/// The views of a sequence of strings.
pub open spec fn views(v: Seq<String>) -> Seq<Seq<char>> {
    v.map_values(|s: String| s@)
}

/// The pieces of `s` between occurrences of `c`, as `str::split` yields
/// them: always at least one, possibly empty.
pub open spec fn split_on(s: Seq<char>, c: char) -> Seq<Seq<char>>
    decreases s.len(),
{
    if s.len() == 0 {
        seq![Seq::<char>::empty()]
    } else {
        let rest = split_on(s.drop_first(), c);
        if s[0] == c {
            seq![Seq::<char>::empty()] + rest
        } else {
            rest.update(0, seq![s[0]] + rest[0])
        }
    }
}

/// A line without the carriage return that ended it.
pub open spec fn strip_cr(l: Seq<char>) -> Seq<char> {
    if l.len() > 0 && l.last() == '\r' {
        l.drop_last()
    } else {
        l
    }
}

/// Each of `p` without its final carriage return.
pub open spec fn stripped(p: Seq<Seq<char>>) -> Seq<Seq<char>> {
    p.map_values(|l: Seq<char>| strip_cr(l))
}

/// The lines of `s`, as `str::lines` yields them: split at each newline, a
/// carriage return before the newline dropped, and no empty line after a
/// final newline.
pub open spec fn lines(s: Seq<char>) -> Seq<Seq<char>> {
    let p = split_on(s, '\n');
    let ended = stripped(p.drop_last());
    if p.last().len() == 0 {
        ended
    } else {
        ended.push(p.last())
    }
}

/// The characters that carry Unicode's White_Space property.
pub open spec fn is_white(c: char) -> bool {
    ('\u{9}' <= c && c <= '\u{d}') || c == ' ' || c == '\u{85}' || c == '\u{a0}' || c
        == '\u{1680}' || ('\u{2000}' <= c && c <= '\u{200a}') || c == '\u{2028}' || c
        == '\u{2029}' || c == '\u{202f}' || c == '\u{205f}' || c == '\u{3000}'
}

pub open spec fn trim_start(s: Seq<char>) -> Seq<char>
    decreases s.len(),
{
    if s.len() > 0 && is_white(s[0]) {
        trim_start(s.drop_first())
    } else {
        s
    }
}

pub open spec fn trim_end(s: Seq<char>) -> Seq<char>
    decreases s.len(),
{
    if s.len() > 0 && is_white(s.last()) {
        trim_end(s.drop_last())
    } else {
        s
    }
}

/// `s` without white space at either end.
pub open spec fn trim(s: Seq<char>) -> Seq<char> {
    trim_end(trim_start(s))
}

/// `s` with every white-space character removed.
pub open spec fn without_white(s: Seq<char>) -> Seq<char> {
    s.filter(not_white())
}

pub open spec fn not_white() -> spec_fn(char) -> bool {
    |c: char| !is_white(c)
}

/// Whether `c` occurs in `s`.
pub open spec fn has_char(s: Seq<char>, c: char) -> bool {
    exists|i: int| 0 <= i < s.len() && s[i] == c
}

/// The text before the first `c` in `s` and the text after it, if `c` occurs.
pub open spec fn split_once(s: Seq<char>, c: char) -> Option<(Seq<char>, Seq<char>)> {
    let p = split_on(s, c);
    if p.len() < 2 {
        None
    } else {
        Some((p[0], s.skip(p[0].len() as int + 1)))
    }
}

pub open spec fn is_digit(c: char) -> bool {
    '0' <= c && c <= '9'
}

/// The number that a string of decimal digits denotes.
pub open spec fn digits_value(s: Seq<char>) -> nat
    decreases s.len(),
{
    if s.len() == 0 {
        0
    } else {
        digits_value(s.drop_last()) * 10 + ((s.last() as u32 - '0' as u32) as nat)
    }
}

/// What `str::parse::<u16>` yields: an optional `+` and then one or more
/// decimal digits whose value fits in sixteen bits.
pub open spec fn parse_u16(s: Seq<char>) -> Option<u16> {
    let d = unsigned_part(s);
    if d.len() > 0 && all_digits(d) && digits_value(d) <= 65535 {
        Some(digits_value(d) as u16)
    } else {
        None
    }
}

/// `s` without the `+` that may lead it.
pub open spec fn unsigned_part(s: Seq<char>) -> Seq<char> {
    if s.len() > 0 && s[0] == '+' {
        s.drop_first()
    } else {
        s
    }
}

pub open spec fn all_digits(d: Seq<char>) -> bool {
    forall|i: int| 0 <= i < d.len() ==> is_digit(#[trigger] d[i])
}

/// Splitting text without `c` gives the text itself.
pub proof fn lemma_split_none(x: Seq<char>, c: char)
    requires
        !has_char(x, c),
    ensures
        split_on(x, c) == seq![x],
    decreases x.len(),
{
    if x.len() > 0 {
        assert(!has_char(x.drop_first(), c)) by {
            if has_char(x.drop_first(), c) {
                let i = choose|i: int| 0 <= i < x.drop_first().len() && x.drop_first()[i] == c;
                assert(x[i + 1] == c);
            }
        }
        assert(x[0] != c);
        lemma_split_none(x.drop_first(), c);
        assert(seq![x[0]] + x.drop_first() =~= x);
        assert(split_on(x, c) =~= seq![x]);
    } else {
        assert(x =~= Seq::<char>::empty());
    }
}

/// The first occurrence of `c` ends the first piece.
pub proof fn lemma_split_at(x: Seq<char>, c: char, y: Seq<char>)
    requires
        !has_char(x, c),
    ensures
        split_on(x + seq![c] + y, c) == seq![x] + split_on(y, c),
    decreases x.len(),
{
    let s = x + seq![c] + y;
    if x.len() == 0 {
        assert(s.drop_first() =~= y);
        assert(x =~= Seq::<char>::empty());
        assert(split_on(s, c) =~= seq![x] + split_on(y, c));
    } else {
        assert(!has_char(x.drop_first(), c)) by {
            if has_char(x.drop_first(), c) {
                let i = choose|i: int| 0 <= i < x.drop_first().len() && x.drop_first()[i] == c;
                assert(x[i + 1] == c);
            }
        }
        assert(x[0] != c);
        assert(s.drop_first() =~= x.drop_first() + seq![c] + y);
        lemma_split_at(x.drop_first(), c, y);
        assert(seq![x[0]] + x.drop_first() =~= x);
        assert(split_on(s, c) =~= seq![x] + split_on(y, c));
    }
}

/// The characters of `s`, one by one.
pub fn chars_of(s: &str) -> (r: Vec<char>)
    ensures
        r@ == s@,
{
    let n = s.unicode_len();
    let mut r: Vec<char> = Vec::new();
    let mut i: usize = 0;
    while i < n
        invariant
            n == s@.len(),
            i <= n,
            r@ == s@.take(i as int),
        decreases n - i,
    {
        r.push(s.get_char(i));
        i = i + 1;
        assert(r@ =~= s@.take(i as int));
    }
    assert(r@ =~= s@);
    r
}

/// The characters `from..to` of `cs`, as a string.
pub fn string_of(cs: &Vec<char>, from: usize, to: usize) -> (r: String)
    requires
        from <= to <= cs@.len(),
    ensures
        r@ == cs@.subrange(from as int, to as int),
{
    let mut r = String::new();
    let mut i: usize = from;
    while i < to
        invariant
            from <= i <= to <= cs@.len(),
            r@ == cs@.subrange(from as int, i as int),
        decreases to - i,
    {
        push_char(&mut r, cs[i]);
        i = i + 1;
        assert(r@ =~= cs@.subrange(from as int, i as int));
    }
    r
}

/// Splits `s` at each `c`, as `str::split` does.
pub fn split_text(s: &str, c: char) -> (r: Vec<String>)
    ensures
        views(r@) == split_on(s@, c),
{
    let cs = chars_of(s);
    let n = cs.len();
    let mut pieces: Vec<String> = Vec::new();
    let mut start: usize = 0;
    let mut j: usize = 0;
    proof {
        assert(s@.skip(0) =~= s@);
        assert(views(pieces@) =~= Seq::<Seq<char>>::empty());
        assert(views(pieces@) + split_on(s@, c) =~= split_on(s@, c));
    }
    while j < n
        invariant
            n == cs@.len(),
            cs@ == s@,
            start <= j <= n,
            forall|k: int| start <= k < j ==> cs@[k] != c,
            split_on(s@, c) == views(pieces@) + split_on(s@.skip(start as int), c),
        decreases n - j,
    {
        if cs[j] == c {
            let piece = string_of(&cs, start, j);
            proof {
                let x = s@.subrange(start as int, j as int);
                assert(!has_char(x, c)) by {
                    if has_char(x, c) {
                        let i = choose|i: int| 0 <= i < x.len() && x[i] == c;
                        assert(cs@[start + i] == c);
                    }
                }
                assert(s@.skip(start as int) =~= x + seq![c] + s@.skip(j + 1));
                lemma_split_at(x, c, s@.skip(j + 1));
            }
            let ghost before = pieces@;
            pieces.push(piece);
            proof {
                assert(views(pieces@) =~= views(before).push(piece@));
                assert(views(before).push(piece@) + split_on(s@.skip(j + 1), c) =~= views(before)
                    + (seq![piece@] + split_on(s@.skip(j + 1), c)));
            }
            start = j + 1;
        }
        j = j + 1;
    }
    let last = string_of(&cs, start, n);
    proof {
        let x = s@.skip(start as int);
        assert(!has_char(x, c)) by {
            if has_char(x, c) {
                let i = choose|i: int| 0 <= i < x.len() && x[i] == c;
                assert(cs@[start + i] == c);
            }
        }
        lemma_split_none(x, c);
    }
    let ghost before = pieces@;
    pieces.push(last);
    proof {
        assert(views(pieces@) =~= views(before).push(last@));
        assert(views(before) + seq![last@] =~= views(before).push(last@));
    }
    pieces
}


/// Splitting always yields at least one piece.
pub proof fn lemma_split_nonempty(s: Seq<char>, c: char)
    ensures
        split_on(s, c).len() >= 1,
    decreases s.len(),
{
    if s.len() > 0 {
        lemma_split_nonempty(s.drop_first(), c);
    }
}

/// Whether `c` has the White_Space property, as `char::is_whitespace` says.
pub fn is_white_char(c: char) -> (r: bool)
    ensures
        r == is_white(c),
{
    ('\u{9}' <= c && c <= '\u{d}') || c == ' ' || c == '\u{85}' || c == '\u{a0}' || c
        == '\u{1680}' || ('\u{2000}' <= c && c <= '\u{200a}') || c == '\u{2028}' || c
        == '\u{2029}' || c == '\u{202f}' || c == '\u{205f}' || c == '\u{3000}'
}

proof fn lemma_trim_start(s: Seq<char>, lo: int)
    requires
        0 <= lo <= s.len(),
        forall|i: int| 0 <= i < lo ==> is_white(#[trigger] s[i]),
        lo == s.len() || !is_white(s[lo]),
    ensures
        trim_start(s) == s.skip(lo),
    decreases lo,
{
    if lo == 0 {
        assert(s.skip(0) =~= s);
    } else {
        assert(is_white(s[0]));
        let t = s.drop_first();
        assert forall|i: int| 0 <= i < lo - 1 implies is_white(#[trigger] t[i]) by {
            assert(t[i] == s[i + 1]);
        }
        lemma_trim_start(t, lo - 1);
        assert(t.skip(lo - 1) =~= s.skip(lo));
    }
}

proof fn lemma_trim_end(t: Seq<char>, hi: int)
    requires
        0 <= hi <= t.len(),
        forall|i: int| hi <= i < t.len() ==> is_white(#[trigger] t[i]),
        hi == 0 || !is_white(t[hi - 1]),
    ensures
        trim_end(t) == t.take(hi),
    decreases t.len() - hi,
{
    if hi == t.len() {
        assert(t.take(hi) =~= t);
    } else {
        assert(is_white(t.last()));
        let u = t.drop_last();
        lemma_trim_end(u, hi);
        assert(u.take(hi) =~= t.take(hi));
    }
}

/// `s` without white space at either end, as `str::trim` gives it.
pub fn trim_text(s: &str) -> (r: String)
    ensures
        r@ == trim(s@),
{
    let cs = chars_of(s);
    let n = cs.len();
    let mut lo: usize = 0;
    while lo < n && is_white_char(cs[lo])
        invariant
            lo <= n == cs@.len(),
            forall|i: int| 0 <= i < lo ==> is_white(#[trigger] cs@[i]),
        decreases n - lo,
    {
        lo = lo + 1;
    }
    let mut hi: usize = n;
    while hi > lo && is_white_char(cs[hi - 1])
        invariant
            lo <= hi <= n == cs@.len(),
            forall|i: int| hi <= i < n ==> is_white(#[trigger] cs@[i]),
        decreases hi,
    {
        hi = hi - 1;
    }
    proof {
        lemma_trim_start(s@, lo as int);
        let t = s@.skip(lo as int);
        assert forall|i: int| hi - lo <= i < t.len() implies is_white(#[trigger] t[i]) by {
            assert(t[i] == cs@[lo + i]);
        }
        lemma_trim_end(t, hi - lo);
        assert(t.take(hi - lo) =~= s@.subrange(lo as int, hi as int));
    }
    string_of(&cs, lo, hi)
}

/// `s` with its white space removed.
pub fn without_white_text(s: &str) -> (r: String)
    ensures
        r@ == without_white(s@),
{
    let cs = chars_of(s);
    let n = cs.len();
    let mut r = String::new();
    let mut i: usize = 0;
    while i < n
        invariant
            i <= n == cs@.len(),
            cs@ == s@,
            r@ == s@.take(i as int).filter(not_white()),
        decreases n - i,
    {
        proof {
            assert(s@.take(i + 1).drop_last() =~= s@.take(i as int));
            assert(s@.take(i + 1).last() == cs@[i as int]);
        }
        if !is_white_char(cs[i]) {
            push_char(&mut r, cs[i]);
        }
        proof {
            reveal_with_fuel(Seq::filter, 1);
        }
        i = i + 1;
    }
    assert(s@.take(n as int) =~= s@);
    r
}

/// Finds the first `c` in `s` and gives the text on either side of it.
pub fn split_once_text(s: &str, c: char) -> (r: Option<(String, String)>)
    ensures
        r matches Some(p) ==> split_once(s@, c) == Some((p.0@, p.1@)),
        r is None <==> split_once(s@, c) is None,
{
    let cs = chars_of(s);
    let n = cs.len();
    let mut j: usize = 0;
    while j < n && cs[j] != c
        invariant
            j <= n == cs@.len(),
            forall|k: int| 0 <= k < j ==> cs@[k] != c,
        decreases n - j,
    {
        j = j + 1;
    }
    if j == n {
        proof {
            assert(!has_char(s@, c)) by {
                if has_char(s@, c) {
                    let i = choose|i: int| 0 <= i < s@.len() && s@[i] == c;
                    assert(cs@[i] != c);
                }
            }
            lemma_split_none(s@, c);
        }
        None
    } else {
        proof {
            let x = s@.take(j as int);
            assert(!has_char(x, c)) by {
                if has_char(x, c) {
                    let i = choose|i: int| 0 <= i < x.len() && x[i] == c;
                    assert(cs@[i] != c);
                }
            }
            assert(s@ =~= x + seq![c] + s@.skip(j + 1));
            lemma_split_at(x, c, s@.skip(j + 1));
            lemma_split_nonempty(s@.skip(j + 1), c);
            assert(split_on(s@, c)[0] == x);
        }
        Some((string_of(&cs, 0, j), string_of(&cs, j + 1, n)))
    }
}

/// `l` without the carriage return at its end, if any.
pub fn strip_cr_text(l: &str) -> (r: String)
    ensures
        r@ == strip_cr(l@),
{
    let cs = chars_of(l);
    let n = cs.len();
    if n > 0 && cs[n - 1] == '\r' {
        string_of(&cs, 0, n - 1)
    } else {
        string_of(&cs, 0, n)
    }
}

/// The lines of `s`, as `str::lines` yields them.
pub fn lines_of(s: &str) -> (r: Vec<String>)
    ensures
        views(r@) == lines(s@),
{
    let p = split_text(s, '\n');
    proof {
        lemma_split_nonempty(s@, '\n');
    }
    let n = p.len();
    let mut out: Vec<String> = Vec::new();
    let mut i: usize = 0;
    while i + 1 < n
        invariant
            1 <= n == p@.len(),
            views(p@) == split_on(s@, '\n'),
            i + 1 <= n,
            views(out@) == stripped(split_on(s@, '\n').take(i as int)),
        decreases n - i,
    {
        let line = strip_cr_text(p[i].as_str());
        let ghost before = out@;
        out.push(line);
        i = i + 1;
        proof {
            let sp = split_on(s@, '\n');
            assert(p@[i - 1]@ == sp[i - 1]);
            assert(views(out@) =~= views(before).push(line@));
            assert(stripped(sp.take(i as int)) =~= stripped(sp.take(i - 1)).push(strip_cr(sp[i - 1])));
        }
    }
    proof {
        assert(split_on(s@, '\n').take(i as int) =~= split_on(s@, '\n').drop_last());
        assert(p@[n - 1]@ == split_on(s@, '\n').last());
    }
    if !p[n - 1].as_str().is_empty() {
        let last = p[n - 1].clone();
        let ghost before = out@;
        out.push(last);
        proof {
            assert(views(out@) =~= views(before).push(last@));
        }
    }
    out
}

proof fn lemma_digits_prefix(d: Seq<char>, k: int)
    requires
        0 <= k <= d.len(),
    ensures
        digits_value(d.take(k)) <= digits_value(d),
    decreases d.len(),
{
    if k < d.len() {
        lemma_digits_prefix(d.drop_last(), k);
        assert(d.drop_last().take(k) =~= d.take(k));
    } else {
        assert(d.take(k) =~= d);
    }
}

/// Reads a sixteen-bit number, as `str::parse::<u16>` does.
pub fn parse_u16_text(s: &str) -> (r: Option<u16>)
    ensures
        r == parse_u16(s@),
{
    let cs = chars_of(s);
    let n = cs.len();
    let start: usize = if n > 0 && cs[0] == '+' { 1 } else { 0 };
    let ghost d = unsigned_part(s@);
    assert(d =~= s@.skip(start as int));
    if start == n {
        return None;
    }
    let mut v: u32 = 0;
    let mut i: usize = start;
    while i < n
        invariant
            start <= i <= n == cs@.len(),
            cs@ == s@,
            d == s@.skip(start as int),
            d == unsigned_part(s@),
            forall|k: int| 0 <= k < i - start ==> is_digit(#[trigger] d[k]),
            v == digits_value(d.take(i - start)),
            v <= 65535,
        decreases n - i,
    {
        let c = cs[i];
        proof {
            assert(d[i - start] == c);
            assert(d.take(i - start + 1).drop_last() =~= d.take(i - start));
        }
        if !('0' <= c && c <= '9') {
            proof {
                let k = i - start;
                assert(0 <= k < d.len());
                assert(!is_digit(d[k]));
                assert(!all_digits(d));
            }
            return None;
        }
        let next = v * 10 + (c as u32 - '0' as u32);
        if next > 65535 {
            proof {
                assert(d.take(i - start + 1).last() == c);
                assert(digits_value(d.take(i - start + 1)) == next);
                lemma_digits_prefix(d, i - start + 1);
                assert(digits_value(d) > 65535);
            }
            return None;
        }
        v = next;
        i = i + 1;
    }
    assert(d.take(n - start) =~= d);
    Some(v as u16)
}

proof fn lemma_digit_char(d: nat)
    requires
        d < 10,
    ensures
        is_digit(digit_char(d)),
        digit_char(d) as u32 - '0' as u32 == d,
{
}

/// A decimal numeral is read back as the number it was written from.
pub proof fn lemma_decimal_digits(n: nat)
    ensures
        decimal(n).len() > 0,
        forall|i: int| 0 <= i < decimal(n).len() ==> is_digit(#[trigger] decimal(n)[i]),
        digits_value(decimal(n)) == n,
    decreases n,
{
    lemma_digit_char(n % 10);
    if n >= 10 {
        lemma_decimal_digits(n / 10);
        let d = decimal(n);
        assert(d.drop_last() =~= decimal(n / 10));
        assert(d.last() == digit_char(n % 10));
        assert(digits_value(d) == n / 10 * 10 + n % 10);
        assert forall|i: int| 0 <= i < d.len() implies is_digit(#[trigger] d[i]) by {
            if i < d.len() - 1 {
                assert(d[i] == decimal(n / 10)[i]);
            }
        }
    } else {
        assert(seq![digit_char(n)].drop_last() =~= Seq::<char>::empty());
        assert(digits_value(Seq::<char>::empty()) == 0);
    }
}

/// The status written by `decimal` parses back.
pub proof fn lemma_parse_decimal(v: u16)
    ensures
        parse_u16(decimal(v as nat)) == Some(v),
{
    lemma_decimal_digits(v as nat);
}

/// The last occurrence of `c` starts the last piece.
pub proof fn lemma_split_last(x: Seq<char>, c: char, y: Seq<char>)
    requires
        !has_char(y, c),
    ensures
        split_on(x + seq![c] + y, c) == split_on(x, c).push(y),
    decreases x.len(),
{
    let s = x + seq![c] + y;
    if x.len() == 0 {
        assert(s.drop_first() =~= y);
        assert(s[0] == c);
        lemma_split_none(y, c);
        assert(split_on(x, c) =~= seq![Seq::<char>::empty()]);
        assert(split_on(s, c) =~= split_on(x, c).push(y));
    } else {
        let xd = x.drop_first();
        assert(s.drop_first() =~= xd + seq![c] + y);
        assert(s[0] == x[0]);
        lemma_split_last(xd, c, y);
        lemma_split_nonempty(xd, c);
        assert(split_on(s, c) =~= split_on(x, c).push(y));
    }
}

/// A leading space makes no difference to trimming.
pub proof fn lemma_trim_space(v: Seq<char>)
    ensures
        trim(seq![' '] + v) == trim(v),
{
    assert((seq![' '] + v).drop_first() =~= v);
}

/// Text made of parts without `c` has no `c`.
pub proof fn lemma_no_char_concat(a: Seq<char>, b: Seq<char>, c: char)
    requires
        !has_char(a, c),
        !has_char(b, c),
    ensures
        !has_char(a + b, c),
{
    if has_char(a + b, c) {
        let i = choose|i: int| 0 <= i < (a + b).len() && (a + b)[i] == c;
        if i < a.len() {
            assert(a[i] == c);
        } else {
            assert(b[i - a.len()] == c);
        }
    }
}

/// Decimal numerals are made of digits alone.
pub proof fn lemma_decimal_plain(n: nat, c: char)
    requires
        !is_digit(c),
    ensures
        !has_char(decimal(n), c),
{
    lemma_decimal_digits(n);
    if has_char(decimal(n), c) {
        let i = choose|i: int| 0 <= i < decimal(n).len() && decimal(n)[i] == c;
        assert(is_digit(decimal(n)[i]));
    }
}

} // verus!
