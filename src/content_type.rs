//! File extension to MIME type.
use vstd::prelude::*;
use crate::text::{ascii_bytes, ascii_of, copy_range};
use crate::request::bytes_eq;

verus! {

/// Index of the last `b` in `s[..i]`, or -1.
pub open spec fn rfind_byte(s: Seq<u8>, b: u8, i: int) -> int
    decreases i,
{
    if i <= 0 || i > s.len() {
        -1
    } else if s[i - 1] == b {
        i - 1
    } else {
        rfind_byte(s, b, i - 1)
    }
}

/// The extension of the last path component: the bytes after its last dot, where that dot
/// is not the component's first byte.
pub open spec fn extension(p: Seq<u8>) -> Option<Seq<u8>> {
    let name_start = rfind_byte(p, 47, p.len() as int) + 1;
    let dot = rfind_byte(p, 46, p.len() as int);
    if dot > name_start {
        Some(p.subrange(dot + 1, p.len() as int))
    } else {
        None
    }
}

pub open spec fn is_ext(e: Option<Seq<u8>>, name: Seq<char>) -> bool {
    e == Some(ascii_bytes(name))
}

/// The MIME type served for a file extension.
pub open spec fn mime_type(e: Option<Seq<u8>>) -> Seq<u8> {
    if is_ext(e, "html"@) {
        ascii_bytes("text/html; charset=utf-8"@)
    } else if is_ext(e, "txt"@) {
        ascii_bytes("text/plain; charset=utf-8"@)
    } else if is_ext(e, "css"@) {
        ascii_bytes("text/css; charset=utf-8"@)
    } else if is_ext(e, "js"@) {
        ascii_bytes("text/javascript; charset=utf-8"@)
    } else if is_ext(e, "jpg"@) || is_ext(e, "jpeg"@) {
        ascii_bytes("image/jpeg"@)
    } else if is_ext(e, "png"@) {
        ascii_bytes("image/png"@)
    } else if is_ext(e, "zip"@) {
        ascii_bytes("application/zip"@)
    } else {
        ascii_bytes("application/octet-stream"@)
    }
}

/// Index of the last `b` in `s`, if any.
pub fn find_last(s: &[u8], b: u8) -> (r: Option<usize>)
    ensures
        match r {
            Some(k) => k < s@.len() && k == rfind_byte(s@, b, s@.len() as int),
            None => rfind_byte(s@, b, s@.len() as int) == -1,
        },
{
    let mut i: usize = s.len();
    while i > 0
        invariant
            i <= s@.len(),
            rfind_byte(s@, b, i as int) == rfind_byte(s@, b, s@.len() as int),
        decreases i,
    {
        if s[i - 1] == b {
            return Some(i - 1);
        }
        i = i - 1;
    }
    None
}

/// The extension of the last component of `p`, if it has one.
pub fn file_extension(p: &[u8]) -> (r: Option<Vec<u8>>)
    ensures
        match r {
            Some(e) => extension(p@) == Some(e@),
            None => extension(p@) is None,
        },
{
    let n = p.len();
    let name_start: usize = match find_last(p, 47) {
        Some(k) => k + 1,
        None => 0,
    };
    match find_last(p, 46) {
        Some(d) => {
            if d > name_start {
                Some(copy_range(p, d + 1, n))
            } else {
                None
            }
        },
        None => None,
    }
}

fn has_ext(e: &Vec<u8>, name: &str) -> (r: bool)
    requires
        name.is_ascii(),
    ensures
        r == (e@ == ascii_bytes(name@)),
{
    let n = ascii_of(name);
    bytes_eq(e, &n)
}

/// The MIME type for the file at `path`, chosen by its extension (case-sensitive);
/// `application/octet-stream` where the extension is absent or unknown.
pub fn determine_content_type(path: &[u8]) -> (r: Vec<u8>)
    ensures
        r@ == mime_type(extension(path@)),
{
    proof {
        reveal_strlit("html");
        reveal_strlit("txt");
        reveal_strlit("css");
        reveal_strlit("js");
        reveal_strlit("jpg");
        reveal_strlit("jpeg");
        reveal_strlit("png");
        reveal_strlit("zip");
        reveal_strlit("text/html; charset=utf-8");
        reveal_strlit("text/plain; charset=utf-8");
        reveal_strlit("text/css; charset=utf-8");
        reveal_strlit("text/javascript; charset=utf-8");
        reveal_strlit("image/jpeg");
        reveal_strlit("image/png");
        reveal_strlit("application/zip");
        reveal_strlit("application/octet-stream");
    }
    let e = file_extension(path);
    let ghost ext = extension(path@);
    match e {
        Some(e) => {
            if has_ext(&e, "html") {
                ascii_of("text/html; charset=utf-8")
            } else if has_ext(&e, "txt") {
                ascii_of("text/plain; charset=utf-8")
            } else if has_ext(&e, "css") {
                ascii_of("text/css; charset=utf-8")
            } else if has_ext(&e, "js") {
                ascii_of("text/javascript; charset=utf-8")
            } else if has_ext(&e, "jpg") || has_ext(&e, "jpeg") {
                ascii_of("image/jpeg")
            } else if has_ext(&e, "png") {
                ascii_of("image/png")
            } else if has_ext(&e, "zip") {
                ascii_of("application/zip")
            } else {
                ascii_of("application/octet-stream")
            }
        },
        None => ascii_of("application/octet-stream"),
    }
}

} // verus!
