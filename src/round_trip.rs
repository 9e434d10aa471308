//! Reading back what `Response::to_bytes` writes.
use vstd::prelude::*;
use vstd::utf8::{
    char_is_scalar, encode_scalar, encode_utf8, encode_utf8_decode_utf8,
    encode_utf8_valid_utf8, is_scalar, valid_utf8,
};

use crate::response::{
    before_zero, headers_text, lemma_before_zero, read_line, read_lines, response_of_bytes,
    response_text, fresh_response, ResponseModel,
};
use crate::text::{
    decimal, has_char, lemma_decimal_plain, lemma_no_char_concat, lemma_parse_decimal,
    lemma_split_at, lemma_split_last, lemma_split_none, lemma_split_nonempty, lemma_trim_space,
    lines, split_on, split_once, stripped, trim,
};

verus! {

/// Text that a header key or value, or a body, can be written as and read
/// back from: one line, no zero character, no white space at either end.
pub open spec fn plain_text(s: Seq<char>) -> bool {
    !has_char(s, '\n') && !has_char(s, '\0') && trim(s) == s
}

/// A response whose wire form reads back as itself: keys without `:`, and
/// keys, values and body plain.
pub open spec fn writable(r: ResponseModel) -> bool {
    &&& forall|i: int|
        0 <= i < r.headers.len() ==> plain_text((#[trigger] r.headers[i]).0) && !has_char(
            r.headers[i].0,
            ':',
        ) && plain_text(r.headers[i].1)
    &&& plain_text(r.body)
}

/// Lines joined with newlines.
pub open spec fn join_lines(ps: Seq<Seq<char>>) -> Seq<char>
    decreases ps.len(),
{
    if ps.len() == 0 {
        Seq::empty()
    } else if ps.len() == 1 {
        ps[0]
    } else {
        join_lines(ps.drop_last()) + seq!['\n'] + ps.last()
    }
}

pub open spec fn status_line(status: u16) -> Seq<char> {
    "HTTP/1.1 "@ + decimal(status as nat)
}

pub open spec fn header_line(e: (Seq<char>, Seq<char>)) -> Seq<char> {
    e.0 + ": "@ + e.1
}

pub open spec fn cr_lines(hs: Seq<(Seq<char>, Seq<char>)>) -> Seq<Seq<char>> {
    hs.map_values(|e: (Seq<char>, Seq<char>)| header_line(e) + seq!['\r'])
}

pub open spec fn head_pieces(status: u16, hs: Seq<(Seq<char>, Seq<char>)>) -> Seq<Seq<char>> {
    seq![status_line(status) + seq!['\r']] + cr_lines(hs)
}

proof fn lemma_split_join(ps: Seq<Seq<char>>)
    requires
        ps.len() >= 1,
        forall|i: int| 0 <= i < ps.len() ==> !has_char(#[trigger] ps[i], '\n'),
    ensures
        split_on(join_lines(ps), '\n') == ps,
    decreases ps.len(),
{
    if ps.len() == 1 {
        lemma_split_none(ps[0], '\n');
        assert(seq![ps[0]] =~= ps);
    } else {
        lemma_split_join(ps.drop_last());
        lemma_split_last(join_lines(ps.drop_last()), '\n', ps.last());
        assert(ps.drop_last().push(ps.last()) =~= ps);
    }
}

proof fn lemma_literals()
    ensures
        "\r\n"@ == seq!['\r', '\n'],
        ": "@ == seq![':', ' '],
        "HTTP/1.1 "@ == "HTTP/1.1"@ + seq![' '],
        !has_char("HTTP/1.1"@, ' '),
        !has_char("HTTP/1.1 "@, '\n'),
        !has_char("HTTP/1.1 "@, '\0'),
        !has_char("HTTP/1.1 "@, '\r'),
{
    reveal_strlit("\r\n");
    reveal_strlit(": ");
    reveal_strlit("HTTP/1.1 ");
    reveal_strlit("HTTP/1.1");
    assert("HTTP/1.1 "@ =~= "HTTP/1.1"@ + seq![' ']);
}

proof fn lemma_head_text(status: u16, hs: Seq<(Seq<char>, Seq<char>)>)
    ensures
        status_line(status) + "\r\n"@ + headers_text(hs) == join_lines(head_pieces(status, hs))
            + seq!['\n'],
    decreases hs.len(),
{
    lemma_literals();
    if hs.len() == 0 {
        assert(head_pieces(status, hs) =~= seq![status_line(status) + seq!['\r']]);
        assert(headers_text(hs) =~= Seq::<char>::empty());
        assert(status_line(status) + "\r\n"@ + headers_text(hs) =~= join_lines(
            head_pieces(status, hs),
        ) + seq!['\n']);
    } else {
        let hd = hs.drop_last();
        lemma_head_text(status, hd);
        assert(head_pieces(status, hs) =~= head_pieces(status, hd).push(
            header_line(hs.last()) + seq!['\r'],
        ));
        assert(head_pieces(status, hs).drop_last() =~= head_pieces(status, hd));
        assert(status_line(status) + "\r\n"@ + headers_text(hs) =~= join_lines(
            head_pieces(status, hs),
        ) + seq!['\n']);
    }
}

proof fn lemma_headers_plain(hs: Seq<(Seq<char>, Seq<char>)>, c: char)
    requires
        c != ':' && c != ' ' && c != '\r' && c != '\n',
        forall|i: int|
            0 <= i < hs.len() ==> !has_char((#[trigger] hs[i]).0, c) && !has_char(hs[i].1, c),
    ensures
        !has_char(headers_text(hs), c),
    decreases hs.len(),
{
    lemma_literals();
    if hs.len() > 0 {
        let hd = hs.drop_last();
        assert forall|i: int| 0 <= i < hd.len() implies !has_char((#[trigger] hd[i]).0, c)
            && !has_char(hd[i].1, c) by {
            assert(hd[i] == hs[i]);
        }
        lemma_headers_plain(hd, c);
        let e = hs.last();
        assert(!has_char(": "@, c)) by {
            if has_char(": "@, c) {
                let i = choose|i: int| 0 <= i < ": "@.len() && ": "@[i] == c;
            }
        }
        assert(!has_char("\r\n"@, c)) by {
            if has_char("\r\n"@, c) {
                let i = choose|i: int| 0 <= i < "\r\n"@.len() && "\r\n"@[i] == c;
            }
        }
        lemma_no_char_concat(headers_text(hd), e.0, c);
        lemma_no_char_concat(headers_text(hd) + e.0, ": "@, c);
        lemma_no_char_concat(headers_text(hd) + e.0 + ": "@, e.1, c);
        lemma_no_char_concat(headers_text(hd) + e.0 + ": "@ + e.1, "\r\n"@, c);
    }
}

proof fn lemma_scalar_no_zero(c: u32)
    requires
        is_scalar(c),
        c != 0,
    ensures
        forall|i: int| 0 <= i < encode_scalar(c).len() ==> encode_scalar(c)[i] != 0,
{
    let a = ((c >> 6) & 0x1F) as u8;
    let b = ((c >> 12) & 0x0F) as u8;
    let d = ((c >> 18) & 0x7) as u8;
    let e = (c & 0x3F) as u8;
    let f = ((c >> 6) & 0x3F) as u8;
    let g = ((c >> 12) & 0x3F) as u8;
    assert((0xC0u8 | a) != 0u8) by (bit_vector);
    assert((0xE0u8 | b) != 0u8) by (bit_vector);
    assert((0xF0u8 | d) != 0u8) by (bit_vector);
    assert((0x80u8 | e) != 0u8) by (bit_vector);
    assert((0x80u8 | f) != 0u8) by (bit_vector);
    assert((0x80u8 | g) != 0u8) by (bit_vector);
    if c <= 0x7F {
        assert(c != 0 && c <= 0x7F ==> (c & 0x7F) as u8 != 0u8) by (bit_vector);
    }
}

proof fn lemma_encode_no_zero(s: Seq<char>)
    requires
        !has_char(s, '\0'),
    ensures
        forall|i: int| 0 <= i < encode_utf8(s).len() ==> encode_utf8(s)[i] != 0,
    decreases s.len(),
{
    if s.len() > 0 {
        assert(s[0] != '\0');
        char_is_scalar(s[0]);
        if s[0] as u32 == 0 {
            vstd::utf8::char_u32_cast(s[0], 0);
            vstd::utf8::char_u32_cast('\0', 0);
        }
        lemma_scalar_no_zero(s[0] as u32);
        assert(!has_char(s.drop_first(), '\0')) by {
            if has_char(s.drop_first(), '\0') {
                let i = choose|i: int| 0 <= i < s.drop_first().len() && s.drop_first()[i] == '\0';
                assert(s[i + 1] == '\0');
            }
        }
        lemma_encode_no_zero(s.drop_first());
        let x = encode_scalar(s[0] as u32);
        let y = encode_utf8(s.drop_first());
        assert forall|i: int| 0 <= i < encode_utf8(s).len() implies encode_utf8(s)[i] != 0 by {
            if i < x.len() {
                assert(encode_utf8(s)[i] == x[i]);
            } else {
                assert(encode_utf8(s)[i] == y[i - x.len()]);
            }
        }
    }
}

/// The response that reading has built after the status line and the
/// first `j` header lines.
pub open spec fn read_so_far(r: ResponseModel, j: int) -> ResponseModel {
    ResponseModel {
        protocol: "HTTP/1.1"@,
        status: r.status,
        body: Seq::empty(),
        headers: r.headers.take(j),
    }
}

/// The lines of the wire text: the status line, one line per header, a
/// blank line, and the body where it is not empty.
pub open spec fn wire_lines(r: ResponseModel) -> Seq<Seq<char>> {
    let head = seq![status_line(r.status)] + r.headers.map_values(
        |e: (Seq<char>, Seq<char>)| header_line(e),
    ) + seq![Seq::<char>::empty()];
    if r.body.len() == 0 {
        head
    } else {
        head.push(r.body)
    }
}

proof fn lemma_wire_lines(r: ResponseModel)
    requires
        writable(r),
    ensures
        lines(response_text(r)) == wire_lines(r),
        forall|i: int| 0 <= i < response_text(r).len() ==> response_text(r)[i] != '\0',
{
    lemma_literals();
    let hs = r.headers;
    let n = hs.len();
    let sl = status_line(r.status);
    let p = head_pieces(r.status, hs);
    let q = p.push(seq!['\r']).push(r.body);
    lemma_head_text(r.status, hs);
    assert(response_text(r) =~= sl + "\r\n"@ + headers_text(hs) + "\r\n"@ + r.body);
    assert(q.drop_last() =~= p.push(seq!['\r']));
    assert(q.drop_last().drop_last() =~= p);
    assert(join_lines(q.drop_last()) =~= join_lines(p) + seq!['\n'] + seq!['\r']);
    assert(join_lines(q) =~= join_lines(p) + seq!['\n'] + seq!['\r'] + seq!['\n'] + r.body);
    assert(response_text(r) =~= join_lines(q));
    lemma_decimal_plain(r.status as nat, '\n');
    lemma_decimal_plain(r.status as nat, '\r');
    lemma_decimal_plain(r.status as nat, ' ');
    lemma_decimal_plain(r.status as nat, '\0');
    assert forall|i: int| 0 <= i < q.len() implies !has_char(#[trigger] q[i], '\n') by {
        if i == 0 {
            lemma_no_char_concat("HTTP/1.1 "@, decimal(r.status as nat), '\n');
            lemma_no_char_concat(sl, seq!['\r'], '\n');
        } else if i <= n {
            let e = hs[i - 1];
            assert(q[i] == header_line(e) + seq!['\r']);
            assert(!has_char(": "@, '\n')) by {
                if has_char(": "@, '\n') {
                    let k = choose|k: int| 0 <= k < ": "@.len() && ": "@[k] == '\n';
                }
            }
            lemma_no_char_concat(e.0, ": "@, '\n');
            lemma_no_char_concat(e.0 + ": "@, e.1, '\n');
            lemma_no_char_concat(header_line(e), seq!['\r'], '\n');
        } else if i == n + 1 {
            assert(q[i] == seq!['\r']);
        } else {
            assert(q[i] == r.body);
        }
    }
    lemma_split_join(q);
    let ended = stripped(q.drop_last());
    assert(ended =~= seq![sl] + hs.map_values(|e: (Seq<char>, Seq<char>)| header_line(e)) + seq![
        Seq::<char>::empty(),
    ]) by {
        assert forall|i: int| 0 <= i < ended.len() implies ended[i] == (seq![sl] + hs.map_values(
            |e: (Seq<char>, Seq<char>)| header_line(e),
        ) + seq![Seq::<char>::empty()])[i] by {
            if i == 0 {
                assert((sl + seq!['\r']).drop_last() =~= sl);
            } else if i <= n {
                let e = hs[i - 1];
                assert((header_line(e) + seq!['\r']).drop_last() =~= header_line(e));
            } else {
                assert(seq!['\r'].drop_last() =~= Seq::<char>::empty());
            }
        }
    }
    assert(lines(response_text(r)) =~= wire_lines(r));
    assert(!has_char(response_text(r), '\0')) by {
        lemma_headers_plain(hs, '\0');
        assert(!has_char("\r\n"@, '\0')) by {
            if has_char("\r\n"@, '\0') {
                let k = choose|k: int| 0 <= k < "\r\n"@.len() && "\r\n"@[k] == '\0';
            }
        }
        lemma_no_char_concat("HTTP/1.1 "@, decimal(r.status as nat), '\0');
        lemma_no_char_concat(sl, "\r\n"@, '\0');
        lemma_no_char_concat(sl + "\r\n"@, headers_text(hs), '\0');
        lemma_no_char_concat(sl + "\r\n"@ + headers_text(hs), "\r\n"@, '\0');
        lemma_no_char_concat(sl + "\r\n"@ + headers_text(hs) + "\r\n"@, r.body, '\0');
    }
    assert forall|i: int| 0 <= i < response_text(r).len() implies response_text(r)[i] != '\0' by {
        if response_text(r)[i] == '\0' {
            assert(has_char(response_text(r), '\0'));
        }
    }
}

proof fn lemma_read_head(r: ResponseModel, j: int)
    requires
        writable(r),
        0 <= j <= r.headers.len(),
    ensures
        read_lines(wire_lines(r), 1 + j) == Ok::<ResponseModel, ResponseModel>(read_so_far(r, j)),
    decreases j,
{
    lemma_literals();
    let ls = wire_lines(r);
    let n = r.headers.len();
    assert(ls.len() >= n + 2);
    if j == 0 {
        let sl = status_line(r.status);
        assert(ls[0] == sl);
        let d = decimal(r.status as nat);
        lemma_decimal_plain(r.status as nat, ' ');
        assert(sl =~= "HTTP/1.1"@ + seq![' '] + d);
        lemma_split_at("HTTP/1.1"@, ' ', d);
        lemma_split_none(d, ' ');
        lemma_parse_decimal(r.status);
        assert(split_on(sl, ' ') =~= seq!["HTTP/1.1"@, d]);
        assert(sl.len() > 0);
        assert(read_lines(ls, 0) == Ok::<ResponseModel, ResponseModel>(fresh_response()));
        assert(r.headers.take(0) =~= Seq::<(Seq<char>, Seq<char>)>::empty());
        assert(read_line(fresh_response(), ls, 0) == Ok::<ResponseModel, ResponseModel>(
            read_so_far(r, 0),
        ));
    } else {
        lemma_read_head(r, j - 1);
        let e = r.headers[j - 1];
        let line = header_line(e);
        assert(ls[j] == line);
        assert(line =~= e.0 + seq![':'] + (seq![' '] + e.1));
        lemma_split_at(e.0, ':', seq![' '] + e.1);
        lemma_split_nonempty(seq![' '] + e.1, ':');
        assert(line.skip(e.0.len() as int + 1) =~= seq![' '] + e.1);
        assert(split_once(line, ':') == Some((e.0, seq![' '] + e.1)));
        lemma_trim_space(e.1);
        assert(line.len() > 0);
        assert(r.headers.take(j - 1).push(e) =~= r.headers.take(j));
        assert(read_line(read_so_far(r, j - 1), ls, j) == Ok::<ResponseModel, ResponseModel>(
            read_so_far(r, j),
        ));
    }
}

/// What `Response::to_bytes` writes, `Response::new_from_bytes` reads back:
/// the same status, the same header entries in the same order (repeated
/// `Set-Cookie` entries included) and the same body, under `HTTP/1.1`.
pub proof fn lemma_round_trip(r: ResponseModel)
    requires
        writable(r),
    ensures
        valid_utf8(before_zero(encode_utf8(response_text(r)))),
        response_of_bytes(encode_utf8(response_text(r))) == (ResponseModel {
            protocol: "HTTP/1.1"@,
            ..r
        }),
{
    let t = response_text(r);
    lemma_wire_lines(r);
    assert(!has_char(t, '\0')) by {
        if has_char(t, '\0') {
            let i = choose|i: int| 0 <= i < t.len() && t[i] == '\0';
        }
    }
    lemma_encode_no_zero(t);
    let b = encode_utf8(t);
    lemma_before_zero(b, b.len() as int);
    assert(b.take(b.len() as int) =~= b);
    encode_utf8_valid_utf8(t);
    encode_utf8_decode_utf8(t);
    let ls = wire_lines(r);
    let n = r.headers.len();
    lemma_read_head(r, n as int);
    assert(r.headers.take(n as int) =~= r.headers);
    assert(read_lines(ls, n as int + 2) == Ok::<ResponseModel, ResponseModel>(read_so_far(r, n as int)));
    if r.body.len() == 0 {
        assert(r.body =~= Seq::<char>::empty());
        assert(read_so_far(r, n as int) == (ResponseModel { protocol: "HTTP/1.1"@, ..r }));
    } else {
        assert(ls.len() == n + 3);
        assert(read_lines(ls, n as int + 3) == Ok::<ResponseModel, ResponseModel>(
            ResponseModel { protocol: "HTTP/1.1"@, ..r },
        ));
    }
}

} // verus!
