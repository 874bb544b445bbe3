//! Parsing of a raw HTTP/1.x request: request line and header lines.
use vstd::prelude::*;
use crate::text::{
    copy_range, find_byte, find_first, lower_seq, split_tokens, to_lower, tokens, trim,
    trim_range, views,
};

verus! {

/// One header line: the name in lower case and the value, both trimmed.
pub struct Header {
    pub name: Vec<u8>,
    pub value: Vec<u8>,
}

/// A parsed request. `headers` keeps every header line in the order received.
pub struct Request {
    pub method: Vec<u8>,
    pub target: Vec<u8>,
    pub headers: Vec<Header>,
}

#[derive(Debug, Clone, Copy, PartialEq, Eq, Structural)]
pub enum ParseError {
    /// The request line does not have exactly three whitespace-separated tokens.
    MalformedRequestLine,
}

impl Header {
    pub open spec fn view_pair(&self) -> (Seq<u8>, Seq<u8>) {
        (self.name@, self.value@)
    }
}

pub open spec fn header_views(hs: Seq<Header>) -> Seq<(Seq<u8>, Seq<u8>)> {
    hs.map_values(|h: Header| h.view_pair())
}

/// Index of the line feed ending the line that starts at `i`, or the input length.
pub open spec fn line_end(s: Seq<u8>, i: int) -> int {
    let k = find_byte(s, 10, i);
    if k < 0 {
        s.len() as int
    } else {
        k
    }
}

/// A line without its trailing carriage return, if it has one.
pub open spec fn strip_cr(l: Seq<u8>) -> Seq<u8> {
    if l.len() > 0 && l.last() == 13 {
        l.drop_last()
    } else {
        l
    }
}

/// The first line of a request.
pub open spec fn request_line(s: Seq<u8>) -> Seq<u8> {
    strip_cr(s.subrange(0, line_end(s, 0)))
}

/// A header line split at its first colon; a line without a colon holds no header.
pub open spec fn header_of(l: Seq<u8>) -> Option<(Seq<u8>, Seq<u8>)> {
    let c = find_byte(l, 58, 0);
    if c < 0 {
        None
    } else {
        Some((lower_seq(trim(l.subrange(0, c))), trim(l.subrange(c + 1, l.len() as int))))
    }
}

pub open spec fn opt_seq(h: Option<(Seq<u8>, Seq<u8>)>) -> Seq<(Seq<u8>, Seq<u8>)> {
    match h {
        Some(p) => seq![p],
        None => seq![],
    }
}

/// Headers of the lines from the one starting at `start` (the current one read up to `i`)
/// to the first empty line or the end of the input.
pub open spec fn header_scan(s: Seq<u8>, start: int, i: int) -> Seq<(Seq<u8>, Seq<u8>)>
    decreases s.len() - i,
{
    if i < start || i >= s.len() {
        let l = strip_cr(s.subrange(start, s.len() as int));
        if l.len() == 0 {
            seq![]
        } else {
            opt_seq(header_of(l))
        }
    } else if s[i] == 10 {
        let l = strip_cr(s.subrange(start, i));
        if l.len() == 0 {
            seq![]
        } else {
            opt_seq(header_of(l)) + header_scan(s, i + 1, i + 1)
        }
    } else {
        header_scan(s, start, i + 1)
    }
}

/// The headers of a request, in the order received.
pub open spec fn header_list(s: Seq<u8>) -> Seq<(Seq<u8>, Seq<u8>)> {
    let e = line_end(s, 0);
    if e < s.len() {
        header_scan(s, e + 1, e + 1)
    } else {
        seq![]
    }
}

/// Headers as a map from name to value: a later header wins over an earlier one of the same name.
pub open spec fn header_map(hs: Seq<(Seq<u8>, Seq<u8>)>) -> Map<Seq<u8>, Seq<u8>>
    decreases hs.len(),
{
    if hs.len() == 0 {
        Map::empty()
    } else {
        header_map(hs.drop_last()).insert(hs.last().0, hs.last().1)
    }
}

impl Request {
    pub open spec fn header_seq(&self) -> Seq<(Seq<u8>, Seq<u8>)> {
        header_views(self.headers@)
    }

    /// The value of header `name` (given in lower case): the last one received.
    pub fn header(&self, name: &[u8]) -> (r: Option<&Vec<u8>>)
        ensures
            match r {
                Some(v) => header_map(self.header_seq()).contains_key(name@)
                    && header_map(self.header_seq())[name@] == v@,
                None => !header_map(self.header_seq()).contains_key(name@),
            },
    {
        lookup_header(&self.headers, name)
    }
}

/// The value of the last header in `headers` named `name`.
pub fn lookup_header<'a>(headers: &'a Vec<Header>, name: &[u8]) -> (r: Option<&'a Vec<u8>>)
    ensures
        match r {
            Some(v) => header_map(header_views(headers@)).contains_key(name@)
                && header_map(header_views(headers@))[name@] == v@,
            None => !header_map(header_views(headers@)).contains_key(name@),
        },
{
    let mut i: usize = headers.len();
    while i > 0
        invariant
            i <= headers@.len(),
            forall|j: int| i <= j < headers@.len() ==> headers@[j].name@ != name@,
        decreases i,
    {
        if bytes_eq(&headers[i - 1].name, name) {
            proof {
                let hs = header_views(headers@);
                lemma_lookup_prefix(hs, i as int, name@);
                lemma_header_map_last(hs.subrange(0, i as int));
            }
            return Some(&headers[i - 1].value);
        }
        i = i - 1;
    }
    proof {
        lemma_lookup_prefix(header_views(headers@), 0, name@);
    }
    None
}

pub proof fn lemma_header_map_last(hs: Seq<(Seq<u8>, Seq<u8>)>)
    requires
        hs.len() > 0,
    ensures
        header_map(hs).contains_key(hs.last().0),
        header_map(hs)[hs.last().0] == hs.last().1,
{
}

/// Headers after position `i` that do not carry name `k` leave the value for `k` as it was.
proof fn lemma_lookup_prefix(hs: Seq<(Seq<u8>, Seq<u8>)>, i: int, k: Seq<u8>)
    requires
        0 <= i <= hs.len(),
        forall|j: int| i <= j < hs.len() ==> hs[j].0 != k,
    ensures
        header_map(hs).contains_key(k) == header_map(hs.subrange(0, i)).contains_key(k),
        header_map(hs).contains_key(k) ==> header_map(hs)[k] == header_map(hs.subrange(0, i))[k],
    decreases hs.len(),
{
    if hs.len() == i {
        assert(hs.subrange(0, i) =~= hs);
    } else {
        let d = hs.drop_last();
        assert(d.subrange(0, i) =~= hs.subrange(0, i));
        lemma_lookup_prefix(d, i, k);
    }
}

/// End of the line `s[lo..hi]` once a trailing carriage return is dropped.
pub(crate) fn strip_cr_end(s: &[u8], lo: usize, hi: usize) -> (r: usize)
    requires
        lo <= hi <= s@.len(),
    ensures
        lo <= r <= hi,
        s@.subrange(lo as int, r as int) == strip_cr(s@.subrange(lo as int, hi as int)),
{
    if hi > lo && s[hi - 1] == 13 {
        assert(s@.subrange(lo as int, hi as int).drop_last() =~= s@.subrange(lo as int, hi - 1));
        hi - 1
    } else {
        hi
    }
}

/// The header held by the line `s[lo..hi]`, if it has a colon.
fn header_line(s: &[u8], lo: usize, hi: usize) -> (r: Option<Header>)
    requires
        lo <= hi <= s@.len(),
    ensures
        match r {
            Some(h) => header_of(s@.subrange(lo as int, hi as int)) == Some(h.view_pair()),
            None => header_of(s@.subrange(lo as int, hi as int)) is None,
        },
{
    let ghost l = s@.subrange(lo as int, hi as int);
    let mut k: usize = 0;
    while k < hi - lo
        invariant
            lo <= hi <= s@.len(),
            l == s@.subrange(lo as int, hi as int),
            k <= hi - lo,
            find_byte(l, 58, k as int) == find_byte(l, 58, 0),
        decreases hi - lo - k,
    {
        if s[lo + k] == 58 {
            let raw_name = trim_range(s, lo, lo + k);
            let name = to_lower(&raw_name);
            let value = trim_range(s, lo + k + 1, hi);
            assert(l.subrange(0, k as int) =~= s@.subrange(lo as int, lo + k));
            assert(l.subrange(k + 1, l.len() as int) =~= s@.subrange(lo + k + 1, hi as int));
            return Some(Header { name, value });
        }
        k = k + 1;
    }
    None
}

/// The headers of the lines from `from` to the first empty line or the end of `s`.
pub(crate) fn parse_headers(s: &[u8], from: usize) -> (r: Vec<Header>)
    requires
        from <= s@.len(),
    ensures
        header_views(r@) == header_scan(s@, from as int, from as int),
{
    let mut hs: Vec<Header> = Vec::new();
    let mut start: usize = from;
    let mut i: usize = from;
    while i < s.len()
        invariant
            from <= start <= i <= s@.len(),
            header_views(hs@) + header_scan(s@, start as int, i as int) == header_scan(s@, from as int, from as int),
        decreases s@.len() - i,
    {
        if s[i] == 10 {
            let hi = strip_cr_end(s, start, i);
            let ghost before = header_views(hs@);
            if hi == start {
                assert(before + seq![] =~= before);
                return hs;
            }
            let ghost rest = header_scan(s@, i + 1, i + 1);
            match header_line(s, start, hi) {
                Some(h) => {
                    let ghost p = h.view_pair();
                    hs.push(h);
                    assert(header_views(hs@) =~= before.push(p));
                    assert(before + (seq![p] + rest) =~= before.push(p) + rest);
                },
                None => {
                    assert(before + (seq![] + rest) =~= before + rest);
                },
            }
            start = i + 1;
        }
        i = i + 1;
    }
    let hi = strip_cr_end(s, start, s.len());
    let ghost before = header_views(hs@);
    if hi == start {
        assert(before + seq![] =~= before);
        return hs;
    }
    match header_line(s, start, hi) {
        Some(h) => {
            let ghost p = h.view_pair();
            hs.push(h);
            assert(header_views(hs@) =~= before.push(p));
            assert(before + seq![p] =~= before.push(p));
        },
        None => {
            assert(before + seq![] =~= before);
        },
    }
    hs
}

/// Parses a raw request into method, target and headers.
///
/// The request line must hold exactly three whitespace-separated tokens (method, target,
/// version); header lines follow up to the first empty line or the end of the input.
pub fn parse_request(s: &[u8]) -> (r: Result<Request, ParseError>)
    ensures
        match r {
            Ok(req) => {
                &&& tokens(request_line(s@)).len() == 3
                &&& req.method@ == tokens(request_line(s@))[0]
                &&& req.target@ == tokens(request_line(s@))[1]
                &&& req.header_seq() == header_list(s@)
            },
            Err(e) => e == ParseError::MalformedRequestLine && tokens(request_line(s@)).len() != 3,
        },
{
    let e: usize = match find_first(s, 10, 0) {
        Some(k) => k,
        None => s.len(),
    };
    let hi = strip_cr_end(s, 0, e);
    let line = copy_range(s, 0, hi);
    let toks = split_tokens(&line);
    if toks.len() != 3 {
        return Err(ParseError::MalformedRequestLine);
    }
    let method = copy_range(&toks[0], 0, toks[0].len());
    let target = copy_range(&toks[1], 0, toks[1].len());
    assert(method@ =~= views(toks@)[0]);
    assert(target@ =~= views(toks@)[1]);
    let headers = if e < s.len() {
        parse_headers(s, e + 1)
    } else {
        Vec::new()
    };
    proof {
        if e >= s.len() {
            assert(header_views(headers@) =~= seq![]);
        }
    }
    Ok(Request { method, target, headers })
}

/// Whether two byte strings are equal.
pub fn bytes_eq(a: &[u8], b: &[u8]) -> (r: bool)
    ensures
        r == (a@ == b@),
{
    if a.len() != b.len() {
        return false;
    }
    let mut i: usize = 0;
    while i < a.len()
        invariant
            i <= a@.len(),
            a@.len() == b@.len(),
            a@.subrange(0, i as int) == b@.subrange(0, i as int),
        decreases a@.len() - i,
    {
        if a[i] != b[i] {
            assert(a@[i as int] != b@[i as int]);
            return false;
        }
        assert(a@.subrange(0, i + 1) =~= a@.subrange(0, i as int).push(a@[i as int]));
        assert(b@.subrange(0, i + 1) =~= b@.subrange(0, i as int).push(b@[i as int]));
        i = i + 1;
    }
    assert(a@ =~= a@.subrange(0, i as int));
    assert(b@ =~= b@.subrange(0, i as int));
    true
}

} // verus!
