//! Reading message heads: where a head ends, and a response read back from its wire form.
use vstd::prelude::*;
use crate::request::{
    bytes_eq, header_of, header_scan, opt_seq, header_list, header_map, header_views, line_end, lookup_header, parse_headers,
    request_line, strip_cr, strip_cr_end,
};
use crate::text::{
    ascii_bytes, ascii_of, copy_range, find_byte, find_first, is_space, lower_seq, trim, trim_start,
};
use crate::response::{crlf, dec, reason, wire};

verus! {

/// What a response's head says about it.
pub struct ResponseHead {
    pub status: u16,
    pub content_type: Vec<u8>,
    pub body_len: usize,
}

pub open spec fn is_digit(b: u8) -> bool {
    48 <= b && b <= 57
}

pub open spec fn all_digits(d: Seq<u8>) -> bool {
    forall|i: int| 0 <= i < d.len() ==> is_digit(#[trigger] d[i])
}

/// The number that decimal digits `d` spell.
pub open spec fn digits_value(d: Seq<u8>) -> nat
    decreases d.len(),
{
    if d.len() == 0 {
        0
    } else {
        digits_value(d.drop_last()) * 10 + (d.last() - 48) as nat
    }
}

/// Position after the empty line that ends the head, scanning lines from the one starting at
/// `start` (read up to `i`); -1 where no empty line comes.
pub open spec fn body_scan(s: Seq<u8>, start: int, i: int) -> int
    decreases s.len() - i,
{
    if i < start || i >= s.len() {
        -1
    } else if s[i] == 10 {
        if strip_cr(s.subrange(start, i)).len() == 0 {
            i + 1
        } else {
            body_scan(s, i + 1, i + 1)
        }
    } else {
        body_scan(s, start, i + 1)
    }
}

/// Where the body of a response starts, or -1.
pub open spec fn body_start(s: Seq<u8>) -> int {
    let e = line_end(s, 0);
    if e < s.len() {
        body_scan(s, e + 1, e + 1)
    } else {
        -1
    }
}

pub open spec fn content_type_name() -> Seq<u8> {
    ascii_bytes("content-type"@)
}

pub open spec fn content_length_name() -> Seq<u8> {
    ascii_bytes("content-length"@)
}

/// Status code, content type and body length of a response, where its status line is
/// `HTTP/1.1 <three digits> ...`, its head has a Content-Type and a decimal Content-Length,
/// and the bytes after the head number exactly that length.
pub open spec fn head_of(s: Seq<u8>) -> Option<(u16, Seq<u8>, nat)> {
    let l = request_line(s);
    let hs = header_map(header_list(s));
    let b = body_start(s);
    if l.len() >= 13 && l.subrange(0, 9) == ascii_bytes("HTTP/1.1 "@) && all_digits(l.subrange(9, 12))
        && l[12] == 32 && b >= 0 && hs.contains_key(content_type_name()) && hs.contains_key(
        content_length_name(),
    ) && hs[content_length_name()].len() > 0 && all_digits(hs[content_length_name()])
        && digits_value(hs[content_length_name()]) == s.len() - b {
        Some(
            (
                digits_value(l.subrange(9, 12)) as u16,
                hs[content_type_name()],
                digits_value(hs[content_length_name()]),
            ),
        )
    } else {
        None
    }
}

proof fn lemma_digits_push(d: Seq<u8>, i: int)
    requires
        0 <= i < d.len(),
    ensures
        digits_value(d.subrange(0, i + 1)) == digits_value(d.subrange(0, i)) * 10 + (d[i] - 48) as nat,
{
    assert(d.subrange(0, i + 1).drop_last() =~= d.subrange(0, i));
}

proof fn lemma_digits_monotonic(d: Seq<u8>, k: int)
    requires
        0 <= k <= d.len(),
        all_digits(d),
    ensures
        digits_value(d.subrange(0, k)) <= digits_value(d),
    decreases d.len() - k,
{
    if k < d.len() {
        lemma_digits_push(d, k);
        lemma_digits_monotonic(d, k + 1);
    } else {
        assert(d.subrange(0, k) =~= d);
    }
}

/// The value of the decimal digits `d`; `None` where `d` is empty, holds another byte, or
/// spells a number too large for `usize`.
pub fn parse_decimal(d: &[u8]) -> (r: Option<usize>)
    ensures
        match r {
            Some(v) => d@.len() > 0 && all_digits(d@) && v == digits_value(d@),
            None => !(d@.len() > 0 && all_digits(d@) && digits_value(d@) <= usize::MAX),
        },
{
    if d.len() == 0 {
        return None;
    }
    let mut v: usize = 0;
    let mut i: usize = 0;
    while i < d.len()
        invariant
            i <= d@.len(),
            all_digits(d@.subrange(0, i as int)),
            v == digits_value(d@.subrange(0, i as int)),
        decreases d@.len() - i,
    {
        let b = d[i];
        if b < 48 || b > 57 {
            assert(!is_digit(d@[i as int]));
            return None;
        }
        proof {
            lemma_digits_push(d@, i as int);
        }
        let t = match v.checked_mul(10) {
            Some(t) => t,
            None => {
                proof {
                    assert(all_digits(d@) ==> digits_value(d@.subrange(0, i + 1)) <= digits_value(d@)) by {
                        if all_digits(d@) {
                            lemma_digits_monotonic(d@, i + 1);
                        }
                    }
                }
                return None;
            },
        };
        let w = match t.checked_add((b - 48) as usize) {
            Some(w) => w,
            None => {
                proof {
                    assert(all_digits(d@) ==> digits_value(d@.subrange(0, i + 1)) <= digits_value(d@)) by {
                        if all_digits(d@) {
                            lemma_digits_monotonic(d@, i + 1);
                        }
                    }
                }
                return None;
            },
        };
        v = w;
        assert(all_digits(d@.subrange(0, i + 1))) by {
            assert forall|j: int| 0 <= j < i + 1 implies is_digit(#[trigger] d@.subrange(0, i + 1)[j]) by {
                if j < i {
                    assert(d@.subrange(0, i + 1)[j] == d@.subrange(0, i as int)[j]);
                }
            }
        }
        i = i + 1;
    }
    assert(d@.subrange(0, d@.len() as int) =~= d@);
    Some(v)
}

/// No line feed in `c`.
pub open spec fn no_lf(c: Seq<u8>) -> bool {
    forall|j: int| 0 <= j < c.len() ==> #[trigger] c[j] != 10
}

/// A value that can stand in a header line and read back unchanged: no carriage return or
/// line feed, and no whitespace at either end.
pub open spec fn valid_header_value(v: Seq<u8>) -> bool {
    &&& forall|j: int| 0 <= j < v.len() ==> #[trigger] v[j] != 10 && v[j] != 13
    &&& v.len() > 0 ==> !is_space(v[0]) && !is_space(v.last())
}

/// `s` holds the line `content`, ended by CR LF, at position `p`.
pub open spec fn line_at(s: Seq<u8>, p: int, content: Seq<u8>) -> bool {
    &&& 0 <= p
    &&& p + content.len() + 2 <= s.len()
    &&& s.subrange(p, p + content.len() + 2) == content + crlf()
    &&& no_lf(content)
}

proof fn lemma_find_byte_at(s: Seq<u8>, b: u8, i: int, k: int)
    requires
        0 <= i <= k < s.len(),
        s[k] == b,
        forall|j: int| i <= j < k ==> s[j] != b,
    ensures
        find_byte(s, b, i) == k,
    decreases k - i,
{
    if i < k {
        lemma_find_byte_at(s, b, i + 1, k);
    }
}

proof fn lemma_scan_skip(s: Seq<u8>, p: int, i: int, k: int)
    requires
        p <= i <= k < s.len(),
        forall|j: int| i <= j < k ==> s[j] != 10,
    ensures
        header_scan(s, p, i) == header_scan(s, p, k),
        body_scan(s, p, i) == body_scan(s, p, k),
    decreases k - i,
{
    if i < k {
        lemma_scan_skip(s, p, i + 1, k);
    }
}

/// Scanning over one line.
proof fn lemma_line(s: Seq<u8>, p: int, content: Seq<u8>)
    requires
        line_at(s, p, content),
    ensures
        ({
            let q = p + content.len() + 2;
            &&& header_scan(s, p, p) == (if content.len() == 0 {
                seq![]
            } else {
                opt_seq(header_of(content)) + header_scan(s, q, q)
            })
            &&& body_scan(s, p, p) == (if content.len() == 0 {
                q
            } else {
                body_scan(s, q, q)
            })
            &&& find_byte(s, 10, p) == p + content.len() + 1
            &&& strip_cr(s.subrange(p, p + content.len() + 1)) == content
        }),
{
    let k = p + content.len() + 1;
    let w = content + crlf();
    assert forall|j: int| p <= j < k implies s[j] != 10 by {
        assert(s.subrange(p, p + content.len() + 2)[j - p] == s[j]);
        if j - p < content.len() {
            assert(w[j - p] == content[j - p]);
        } else {
            assert(w[j - p] == 13);
        }
    }
    assert(s.subrange(p, p + content.len() + 2)[k - p] == s[k]);
    assert(w[k - p] == 10);
    lemma_scan_skip(s, p, p, k);
    lemma_find_byte_at(s, 10, p, k);
    assert(s.subrange(p, k) =~= content.push(13));
    assert(content.push(13).drop_last() =~= content);
}

proof fn lemma_dec(n: nat)
    ensures
        dec(n).len() > 0,
        all_digits(dec(n)),
        digits_value(dec(n)) == n,
        100 <= n < 1000 ==> dec(n).len() == 3,
        forall|j: int| 0 <= j < dec(n).len() ==> !is_space(#[trigger] dec(n)[j]),
    decreases n,
{
    if n >= 10 {
        lemma_dec(n / 10);
        let d = dec(n);
        assert(d.drop_last() =~= dec(n / 10));
        assert(d.last() == (48 + n % 10) as u8);
        assert(n == (n / 10) * 10 + n % 10);
        assert(digits_value(d) == digits_value(dec(n / 10)) * 10 + (d.last() - 48) as nat);
        assert((d.last() - 48) as nat == n % 10);
        assert(all_digits(d)) by {
            assert forall|j: int| 0 <= j < d.len() implies is_digit(#[trigger] d[j]) by {
                if j < d.len() - 1 {
                    assert(d[j] == dec(n / 10)[j]);
                }
            }
        }
        if 100 <= n < 1000 {
            lemma_dec(n / 100);
            assert(dec(n / 10).drop_last() =~= dec(n / 100));
        }
    } else {
        let d = dec(n);
        assert(d.drop_last() =~= Seq::<u8>::empty());
        assert(d.last() == (48 + n) as u8);
        assert(digits_value(d.drop_last()) == 0);
        assert(digits_value(d) == digits_value(d.drop_last()) * 10 + (d.last() - 48) as nat);
    }
}

proof fn lemma_reason_no_lf(code: u16)
    ensures
        no_lf(reason(code)),
{
    reveal_strlit("OK");
    reveal_strlit("Bad Request");
    reveal_strlit("Forbidden");
    reveal_strlit("Not Found");
    reveal_strlit("Method Not Allowed");
    reveal_strlit("Internal Server Error");
    reveal_strlit("Unknown");
    assert(ascii_bytes("OK"@) =~= seq![79u8, 75u8]);
    assert(ascii_bytes("Bad Request"@) =~= seq![66u8, 97u8, 100u8, 32u8, 82u8, 101u8, 113u8, 117u8, 101u8, 115u8, 116u8]);
    assert(ascii_bytes("Forbidden"@) =~= seq![70u8, 111u8, 114u8, 98u8, 105u8, 100u8, 100u8, 101u8, 110u8]);
    assert(ascii_bytes("Not Found"@) =~= seq![78u8, 111u8, 116u8, 32u8, 70u8, 111u8, 117u8, 110u8, 100u8]);
    assert(ascii_bytes("Method Not Allowed"@) =~= seq![77u8, 101u8, 116u8, 104u8, 111u8, 100u8, 32u8, 78u8, 111u8, 116u8, 32u8, 65u8, 108u8, 108u8, 111u8, 119u8, 101u8, 100u8]);
    assert(ascii_bytes("Internal Server Error"@) =~= seq![73u8, 110u8, 116u8, 101u8, 114u8, 110u8, 97u8, 108u8, 32u8, 83u8, 101u8, 114u8, 118u8, 101u8, 114u8, 32u8, 69u8, 114u8, 114u8, 111u8, 114u8]);
    assert(ascii_bytes("Unknown"@) =~= seq![85u8, 110u8, 107u8, 110u8, 111u8, 119u8, 110u8]);
}

/// A trimmed value has nothing to trim, also behind one space.
proof fn lemma_trimmed(v: Seq<u8>)
    requires
        v.len() > 0 ==> !is_space(v[0]) && !is_space(v.last()),
    ensures
        trim(v) == v,
        trim(seq![32u8] + v) == v,
{
    assert((seq![32u8] + v).drop_first() =~= v);
    assert(trim_start(seq![32u8] + v) == trim_start(v));
}

/// The header line `name: v` reads back as `(lower-case name, v)`.
proof fn lemma_header_line(name: Seq<u8>, v: Seq<u8>)
    requires
        name.len() > 0,
        !is_space(name[0]) && !is_space(name.last()),
        forall|j: int| 0 <= j < name.len() ==> #[trigger] name[j] != 58,
        v.len() > 0 ==> !is_space(v[0]) && !is_space(v.last()),
    ensures
        header_of(name + seq![58u8, 32u8] + v) == Some((lower_seq(name), v)),
{
    let l = name + seq![58u8, 32u8] + v;
    assert forall|j: int| 0 <= j < name.len() implies l[j] != 58 by {
        assert(l[j] == name[j]);
    }
    lemma_find_byte_at(l, 58, 0, name.len() as int);
    assert(l.subrange(0, name.len() as int) =~= name);
    lemma_trimmed(name);
    assert(l.subrange(name.len() as int + 1, l.len() as int) =~= seq![32u8] + v);
    lemma_trimmed(v);
}

/// `s` from `p` on is the line `c`, then `rest`.
proof fn lemma_line_in(s: Seq<u8>, p: int, c: Seq<u8>, rest: Seq<u8>)
    requires
        0 <= p <= s.len(),
        s.subrange(p, s.len() as int) == c + crlf() + rest,
        no_lf(c),
    ensures
        line_at(s, p, c),
        s.subrange(p + c.len() + 2, s.len() as int) == rest,
{
    let t = s.subrange(p, s.len() as int);
    assert(t.len() == c.len() + 2 + rest.len());
    assert forall|j: int| 0 <= j < c.len() + 2 implies #[trigger] s.subrange(p, p + c.len() + 2)[j] == (c + crlf())[j] by {
        assert(t[j] == s[p + j]);
        assert(t[j] == (c + crlf() + rest)[j]);
    }
    assert(s.subrange(p, p + c.len() + 2) =~= c + crlf());
    assert forall|j: int| 0 <= j < rest.len() implies #[trigger] s.subrange(p + c.len() + 2, s.len() as int)[j] == rest[j] by {
        assert(t[c.len() + 2 + j] == s[p + c.len() + 2 + j]);
        assert((c + crlf() + rest)[c.len() + 2 + j] == rest[j]);
    }
    assert(s.subrange(p + c.len() + 2, s.len() as int) =~= rest);
}

/// A head of a status line and three header lines, an empty line, then the body.
proof fn lemma_four_lines(s: Seq<u8>, c1: Seq<u8>, c2: Seq<u8>, c3: Seq<u8>, c4: Seq<u8>, body: Seq<u8>)
    requires
        s == c1 + crlf() + (c2 + crlf() + (c3 + crlf() + (c4 + crlf() + (crlf() + body)))),
        no_lf(c1),
        no_lf(c2),
        no_lf(c3),
        no_lf(c4),
        c2.len() > 0,
        c3.len() > 0,
        c4.len() > 0,
    ensures
        request_line(s) == c1,
        header_list(s) == opt_seq(header_of(c2)) + (opt_seq(header_of(c3)) + (opt_seq(header_of(c4)) + seq![])),
        body_start(s) == s.len() - body.len(),
{
    let t5 = crlf() + body;
    let t4 = c4 + crlf() + t5;
    let t3 = c3 + crlf() + t4;
    let t2 = c2 + crlf() + t3;
    let p2: int = c1.len() as int + 2;
    let p3: int = p2 + c2.len() + 2;
    let p4: int = p3 + c3.len() + 2;
    let p5: int = p4 + c4.len() + 2;
    assert(no_lf(Seq::<u8>::empty()));
    assert(s.subrange(0, s.len() as int) =~= s);
    assert(s =~= c1 + crlf() + t2);
    lemma_line_in(s, 0, c1, t2);
    lemma_line_in(s, p2, c2, t3);
    lemma_line_in(s, p3, c3, t4);
    lemma_line_in(s, p4, c4, t5);
    assert(t5 =~= Seq::<u8>::empty() + crlf() + body);
    lemma_line_in(s, p5, Seq::<u8>::empty(), body);
    lemma_line(s, 0, c1);
    lemma_line(s, p2, c2);
    lemma_line(s, p3, c3);
    lemma_line(s, p4, c4);
    lemma_line(s, p5, Seq::<u8>::empty());
}

/// The status line of `code`: `HTTP/1.1 `, three digits, a space and the reason phrase.
proof fn lemma_status_line(code: u16)
    requires
        100 <= code <= 999,
    ensures
        ({
            let l = ascii_bytes("HTTP/1.1 "@) + dec(code as nat) + seq![32u8] + reason(code);
            &&& no_lf(l)
            &&& l.len() >= 13
            &&& l.subrange(0, 9) == ascii_bytes("HTTP/1.1 "@)
            &&& all_digits(l.subrange(9, 12))
            &&& l[12] == 32
            &&& digits_value(l.subrange(9, 12)) == code
        }),
{
    reveal_strlit("HTTP/1.1 ");
    let pre = ascii_bytes("HTTP/1.1 "@);
    assert(pre =~= seq![72u8, 84u8, 84u8, 80u8, 47u8, 49u8, 46u8, 49u8, 32u8]);
    let d = dec(code as nat);
    lemma_dec(code as nat);
    lemma_reason_no_lf(code);
    let l = pre + d + seq![32u8] + reason(code);
    assert forall|j: int| 0 <= j < l.len() implies #[trigger] l[j] != 10 by {
        if j < 9 {
            assert(l[j] == pre[j]);
        } else if j < 12 {
            assert(l[j] == d[j - 9]);
            assert(is_digit(d[j - 9]));
        } else if j > 12 {
            assert(l[j] == reason(code)[j - 13]);
        }
    }
    assert(l.subrange(0, 9) =~= pre);
    assert(l.subrange(9, 12) =~= d);
}

/// Building a response and reading its wire form back gives the same status code, content
/// type and body length. The status code has three digits and the content type is a valid
/// header value (no CR or LF, nothing to trim).
pub proof fn lemma_wire_round_trip(code: u16, content_type: Seq<u8>, body: Seq<u8>)
    requires
        100 <= code <= 999,
        valid_header_value(content_type),
    ensures
        head_of(wire(code, content_type, body)) == Some((code, content_type, body.len())),
{
    reveal_strlit("Content-Type: ");
    reveal_strlit("Content-Length: ");
    reveal_strlit("Connection: close");
    reveal_strlit("content-type");
    reveal_strlit("content-length");
    let ct_name = seq![67u8, 111u8, 110u8, 116u8, 101u8, 110u8, 116u8, 45u8, 84u8, 121u8, 112u8, 101u8];
    let cl_name = seq![67u8, 111u8, 110u8, 116u8, 101u8, 110u8, 116u8, 45u8, 76u8, 101u8, 110u8, 103u8, 116u8, 104u8];
    let conn_name = seq![67u8, 111u8, 110u8, 110u8, 101u8, 99u8, 116u8, 105u8, 111u8, 110u8];
    let close = seq![99u8, 108u8, 111u8, 115u8, 101u8];
    assert(ascii_bytes("Content-Type: "@) =~= ct_name + seq![58u8, 32u8]);
    assert(ascii_bytes("Content-Length: "@) =~= cl_name + seq![58u8, 32u8]);
    assert(ascii_bytes("Connection: close"@) =~= conn_name + seq![58u8, 32u8] + close);
    assert(lower_seq(ct_name) =~= content_type_name());
    assert(lower_seq(cl_name) =~= content_length_name());
    assert(lower_seq(conn_name).len() == 10);

    let n = body.len();
    lemma_dec(n);
    lemma_status_line(code);
    let c1 = ascii_bytes("HTTP/1.1 "@) + dec(code as nat) + seq![32u8] + reason(code);
    let c2 = ct_name + seq![58u8, 32u8] + content_type;
    let c3 = cl_name + seq![58u8, 32u8] + dec(n);
    let c4 = conn_name + seq![58u8, 32u8] + close;
    let s = wire(code, content_type, body);
    assert(s =~= c1 + crlf() + (c2 + crlf() + (c3 + crlf() + (c4 + crlf() + (crlf() + body)))));
    assert(no_lf(c2));
    assert(no_lf(c3)) by {
        assert forall|j: int| 0 <= j < c3.len() implies #[trigger] c3[j] != 10 by {
            if j >= 16 {
                assert(is_digit(dec(n)[j - 16]));
            }
        }
    }
    assert(no_lf(c4));
    lemma_four_lines(s, c1, c2, c3, c4, body);

    lemma_header_line(ct_name, content_type);
    lemma_header_line(cl_name, dec(n));
    lemma_header_line(conn_name, close);
    let h2 = (content_type_name(), content_type);
    let h3 = (content_length_name(), dec(n));
    let h4 = (lower_seq(conn_name), close);
    let hl = seq![h2, h3, h4];
    assert(header_list(s) =~= hl);
    assert(hl.drop_last() =~= seq![h2, h3]);
    assert(seq![h2, h3].drop_last() =~= seq![h2]);
    assert(seq![h2].drop_last() =~= Seq::<(Seq<u8>, Seq<u8>)>::empty());
    let m1 = header_map(seq![h2]);
    let m2 = header_map(seq![h2, h3]);
    assert(m1 == header_map(Seq::<(Seq<u8>, Seq<u8>)>::empty()).insert(h2.0, h2.1));
    assert(m2 == m1.insert(h3.0, h3.1));
    assert(header_map(hl) == m2.insert(h4.0, h4.1));
    assert(content_type_name().len() == 12);
    assert(content_length_name().len() == 14);
    assert(h4.0 != h2.0 && h4.0 != h3.0 && h3.0 != h2.0);
    let hm = header_map(hl);
    assert(hm.contains_key(content_type_name()) && hm[content_type_name()] == content_type);
    assert(hm.contains_key(content_length_name()) && hm[content_length_name()] == dec(n));
}

/// Where the body starts, scanning lines from `from`.
fn find_body_start(s: &[u8], from: usize) -> (r: Option<usize>)
    requires
        from <= s@.len(),
    ensures
        match r {
            Some(b) => b == body_scan(s@, from as int, from as int) && b <= s@.len(),
            None => body_scan(s@, from as int, from as int) == -1,
        },
{
    let mut start: usize = from;
    let mut i: usize = from;
    while i < s.len()
        invariant
            from <= start <= i <= s@.len(),
            body_scan(s@, start as int, i as int) == body_scan(s@, from as int, from as int),
        decreases s@.len() - i,
    {
        if s[i] == 10 {
            let hi = strip_cr_end(s, start, i);
            if hi == start {
                return Some(i + 1);
            }
            start = i + 1;
        }
        i = i + 1;
    }
    None
}

/// Whether `s` holds a complete head: a first line, then lines up to an empty one.
pub fn head_complete(s: &[u8]) -> (r: bool)
    ensures
        r == (body_start(s@) >= 0),
{
    let n = s.len();
    match find_first(s, 10, 0) {
        Some(e) => e < n && find_body_start(s, e + 1).is_some(),
        None => false,
    }
}

/// Reads the status code, content type and body length back from a response's wire form.
pub fn parse_response(s: &[u8]) -> (r: Option<ResponseHead>)
    ensures
        match r {
            Some(h) => head_of(s@) == Some((h.status, h.content_type@, h.body_len as nat)),
            None => head_of(s@) is None,
        },
{
    proof {
        reveal_strlit("HTTP/1.1 ");
        reveal_strlit("content-type");
        reveal_strlit("content-length");
    }
    let e: usize = match find_first(s, 10, 0) {
        Some(k) => k,
        None => return None,
    };
    let hi = strip_cr_end(s, 0, e);
    let ghost l = s@.subrange(0, hi as int);
    if hi < 13 {
        return None;
    }
    let prefix = copy_range(s, 0, 9);
    assert(prefix@ =~= l.subrange(0, 9));
    if !bytes_eq(&prefix, &ascii_of("HTTP/1.1 ")) {
        return None;
    }
    let d0 = s[9];
    let d1 = s[10];
    let d2 = s[11];
    let ghost ds = l.subrange(9, 12);
    assert(ds =~= seq![d0, d1, d2]);
    if d0 < 48 || d0 > 57 || d1 < 48 || d1 > 57 || d2 < 48 || d2 > 57 {
        assert(!all_digits(ds)) by {
            if d0 < 48 || d0 > 57 {
                assert(!is_digit(ds[0]));
            } else if d1 < 48 || d1 > 57 {
                assert(!is_digit(ds[1]));
            } else {
                assert(!is_digit(ds[2]));
            }
        }
        return None;
    }
    if s[12] != 32 {
        return None;
    }
    let status: u16 = ((d0 - 48) as u16) * 100 + ((d1 - 48) as u16) * 10 + (d2 - 48) as u16;
    assert(ds.drop_last() =~= seq![d0, d1]);
    assert(ds.drop_last().drop_last() =~= seq![d0]);
    assert(ds.drop_last().drop_last().drop_last() =~= Seq::<u8>::empty());
    assert(digits_value(ds.drop_last().drop_last().drop_last()) == 0);
    assert(digits_value(ds.drop_last().drop_last()) == (d0 - 48) as nat);
    assert(digits_value(ds.drop_last()) == (d0 - 48) as nat * 10 + (d1 - 48) as nat);
    assert(status == digits_value(ds));
    let b = match find_body_start(s, e + 1) {
        Some(b) => b,
        None => return None,
    };
    let hs = parse_headers(s, e + 1);
    let ct = match lookup_header(&hs, &ascii_of("content-type")) {
        Some(v) => copy_range(v, 0, v.len()),
        None => return None,
    };
    let n = match lookup_header(&hs, &ascii_of("content-length")) {
        Some(v) => match parse_decimal(v) {
            Some(n) => n,
            None => return None,
        },
        None => return None,
    };
    if n != s.len() - b {
        return None;
    }
    Some(ResponseHead { status, content_type: ct, body_len: n })
}

} // verus!
