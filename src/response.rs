//! HTTP responses and their wire form.
use vstd::prelude::*;
use crate::text::{ascii_bytes, ascii_of};

verus! {

/// A fully materialised response.
pub struct Response {
    pub status: u16,
    pub content_type: Vec<u8>,
    pub body: Vec<u8>,
}

pub open spec fn crlf() -> Seq<u8> {
    seq![13u8, 10u8]
}

/// Decimal digits of `n`, most significant first, without leading zeros.
pub open spec fn dec(n: nat) -> Seq<u8>
    decreases n,
{
    if n < 10 {
        seq![(48 + n) as u8]
    } else {
        dec(n / 10).push((48 + n % 10) as u8)
    }
}

/// The reason phrase of a status code.
pub open spec fn reason(code: u16) -> Seq<u8> {
    if code == 200 {
        ascii_bytes("OK"@)
    } else if code == 400 {
        ascii_bytes("Bad Request"@)
    } else if code == 403 {
        ascii_bytes("Forbidden"@)
    } else if code == 404 {
        ascii_bytes("Not Found"@)
    } else if code == 405 {
        ascii_bytes("Method Not Allowed"@)
    } else if code == 500 {
        ascii_bytes("Internal Server Error"@)
    } else {
        ascii_bytes("Unknown"@)
    }
}

/// `HTTP/1.1 <code> <reason>`, then Content-Type, Content-Length and `Connection: close`,
/// an empty line, and the body.
pub open spec fn wire(code: u16, content_type: Seq<u8>, body: Seq<u8>) -> Seq<u8> {
    ascii_bytes("HTTP/1.1 "@) + dec(code as nat) + seq![32u8] + reason(code) + crlf()
        + ascii_bytes("Content-Type: "@) + content_type + crlf()
        + ascii_bytes("Content-Length: "@) + dec(body.len()) + crlf()
        + ascii_bytes("Connection: close"@) + crlf() + crlf() + body
}

pub open spec fn text_plain() -> Seq<u8> {
    ascii_bytes("text/plain"@)
}

impl Response {
    /// The response for a status with an empty `text/plain` body.
    pub fn status_only(status: u16) -> (r: Response)
        ensures
            r.status == status,
            r.content_type@ == text_plain(),
            r.body@.len() == 0,
    {
        Response { status, content_type: plain_type(), body: Vec::new() }
    }

    /// The response's wire form, as one byte sequence.
    pub fn to_bytes(&self) -> (r: Vec<u8>)
        ensures
            r@ == wire(self.status, self.content_type@, self.body@),
    {
        proof {
            reveal_strlit("HTTP/1.1 ");
            reveal_strlit("Content-Type: ");
            reveal_strlit("Content-Length: ");
            reveal_strlit("Connection: close");
        }
        let mut out = ascii_of("HTTP/1.1 ");
        append(&mut out, &format_decimal(self.status as usize));
        out.push(32);
        append(&mut out, &reason_phrase(self.status));
        append(&mut out, &crlf_bytes());
        append(&mut out, &ascii_of("Content-Type: "));
        append(&mut out, &self.content_type);
        append(&mut out, &crlf_bytes());
        append(&mut out, &ascii_of("Content-Length: "));
        append(&mut out, &format_decimal(self.body.len()));
        append(&mut out, &crlf_bytes());
        append(&mut out, &ascii_of("Connection: close"));
        append(&mut out, &crlf_bytes());
        append(&mut out, &crlf_bytes());
        append(&mut out, &self.body);
        out
    }
}

pub fn plain_type() -> (r: Vec<u8>)
    ensures
        r@ == text_plain(),
{
    proof {
        reveal_strlit("text/plain");
    }
    ascii_of("text/plain")
}

fn crlf_bytes() -> (r: Vec<u8>)
    ensures
        r@ == crlf(),
{
    let mut r: Vec<u8> = Vec::new();
    r.push(13);
    r.push(10);
    assert(r@ =~= crlf());
    r
}

/// Appends `b` to `out`.
fn append(out: &mut Vec<u8>, b: &[u8])
    ensures
        final(out)@ == old(out)@ + b@,
{
    let mut i: usize = 0;
    while i < b.len()
        invariant
            i <= b@.len(),
            out@ == old(out)@ + b@.subrange(0, i as int),
        decreases b@.len() - i,
    {
        out.push(b[i]);
        assert(old(out)@ + b@.subrange(0, i + 1) =~= (old(out)@ + b@.subrange(0, i as int)).push(b@[i as int]));
        i = i + 1;
    }
    assert(b@.subrange(0, b@.len() as int) =~= b@);
}

/// Decimal digits of `n`.
pub fn format_decimal(n: usize) -> (r: Vec<u8>)
    ensures
        r@ == dec(n as nat),
    decreases n,
{
    if n < 10 {
        let mut r: Vec<u8> = Vec::new();
        r.push((48 + n) as u8);
        assert(r@ =~= dec(n as nat));
        r
    } else {
        let mut r = format_decimal(n / 10);
        r.push((48 + n % 10) as u8);
        r
    }
}

/// The reason phrase of a status code.
pub fn reason_phrase(code: u16) -> (r: Vec<u8>)
    ensures
        r@ == reason(code),
{
    proof {
        reveal_strlit("OK");
        reveal_strlit("Bad Request");
        reveal_strlit("Forbidden");
        reveal_strlit("Not Found");
        reveal_strlit("Method Not Allowed");
        reveal_strlit("Internal Server Error");
        reveal_strlit("Unknown");
    }
    if code == 200 {
        ascii_of("OK")
    } else if code == 400 {
        ascii_of("Bad Request")
    } else if code == 403 {
        ascii_of("Forbidden")
    } else if code == 404 {
        ascii_of("Not Found")
    } else if code == 405 {
        ascii_of("Method Not Allowed")
    } else if code == 500 {
        ascii_of("Internal Server Error")
    } else {
        ascii_of("Unknown")
    }
}

} // verus!
