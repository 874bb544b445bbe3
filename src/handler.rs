//! Per-connection dispatch: from raw request bytes to a response, one step at a time.
//!
//! Each step returns a [`Next`]: either the response to write, or a piece of outside work
//! (inspect a path, read a file, run a script) whose result is handed to the matching
//! `after_*` function. Everything decided along the way is decided here.
use vstd::prelude::*;
use crate::content_type::{determine_content_type, extension, mime_type};
use crate::path::{
    candidate_of, candidate_path, entry_view, index_name, index_path, is_under, join,
    path_is_under, resolve_entry, resolve_index, resolve_index_spec, resolve_spec, scripts_dir,
    scripts_name, Entry, ResolvedPath, ResolvedSpec,
};
use crate::request::{bytes_eq, header_list, parse_request, request_line, Request};
use crate::response::{text_plain, Response};
use crate::script::{
    env_views, parse_headers_as_env_vars, script_env, script_response, ScriptInvocation,
    ScriptOutcome,
};
use crate::text::{ascii_bytes, ascii_of, tokens};

verus! {

/// What a connection needs next.
pub enum Next {
    /// Write this response and close.
    Respond(Response),
    /// Canonicalise this path for a GET and report it to [`after_get_lookup`].
    InspectForGet(Vec<u8>),
    /// Canonicalise this `index.html` path and report it to [`after_index_lookup`].
    InspectIndex(Vec<u8>),
    /// Read this file and report its bytes to [`after_read`] with `content_type`.
    ReadFile { path: Vec<u8>, content_type: Vec<u8> },
    /// Canonicalise this path for a POST and report it to [`after_post_lookup`].
    InspectForPost { path: Vec<u8>, request: Request },
    /// Run this script and report its outcome to [`after_script`].
    Run(ScriptInvocation),
}

/// `n` writes an empty response with status `code`.
pub open spec fn responds_empty(n: Next, code: u16) -> bool {
    match n {
        Next::Respond(r) => r.status == code && r.body@.len() == 0 && r.content_type@ == text_plain(),
        _ => false,
    }
}

/// `n` reads the file at `c`, to be served with the type its extension gives.
pub open spec fn reads_file(n: Next, c: Seq<u8>) -> bool {
    match n {
        Next::ReadFile { path, content_type } => path@ == c && content_type@ == mime_type(extension(c)),
        _ => false,
    }
}

/// `target` starts with `/scripts/`.
pub open spec fn in_scripts_prefix(target: Seq<u8>) -> bool {
    let p = seq![47u8] + scripts_name() + seq![47u8];
    target.len() >= p.len() && target.subrange(0, p.len() as int) == p
}

/// What a parsed GET leads to.
pub open spec fn get_start(n: Next, root: Seq<u8>, target: Seq<u8>) -> bool {
    match candidate_of(root, target) {
        None => responds_empty(n, 403),
        Some(c) => n matches Next::InspectForGet(p) && p@ == c,
    }
}

/// What a parsed POST leads to.
pub open spec fn post_start(n: Next, root: Seq<u8>, raw: Seq<u8>, target: Seq<u8>) -> bool {
    if !in_scripts_prefix(target) {
        responds_empty(n, 403)
    } else {
        match candidate_of(root, target) {
            None => responds_empty(n, 403),
            Some(c) => match n {
                Next::InspectForPost { path, request } => {
                    &&& path@ == c
                    &&& request.method@ == tokens(request_line(raw))[0]
                    &&& request.target@ == target
                    &&& request.header_seq() == header_list(raw)
                },
                _ => false,
            },
        }
    }
}

fn starts_with_scripts(target: &[u8]) -> (r: bool)
    ensures
        r == in_scripts_prefix(target@),
{
    proof {
        reveal_strlit("/scripts/");
        reveal_strlit("scripts");
    }
    let p = ascii_of("/scripts/");
    assert(p@ =~= seq![47u8] + scripts_name() + seq![47u8]);
    if target.len() < p.len() {
        return false;
    }
    let mut i: usize = 0;
    while i < p.len()
        invariant
            i <= p@.len(),
            p@.len() <= target@.len(),
            p@ == seq![47u8] + scripts_name() + seq![47u8],
            target@.subrange(0, i as int) == p@.subrange(0, i as int),
        decreases p@.len() - i,
    {
        if target[i] != p[i] {
            assert(target@.subrange(0, p@.len() as int)[i as int] != p@[i as int]);
            assert(target@.subrange(0, p@.len() as int) != p@);
            return false;
        }
        assert(target@.subrange(0, i + 1) =~= target@.subrange(0, i as int).push(target@[i as int]));
        assert(p@.subrange(0, i + 1) =~= p@.subrange(0, i as int).push(p@[i as int]));
        i = i + 1;
    }
    assert(p@.subrange(0, p@.len() as int) =~= p@);
    true
}

/// First step for a connection: parse the request and dispatch on its method.
///
/// A malformed request line or a method other than `GET` and `POST` gets 405. A target with a
/// `..` segment gets 403, as does a POST whose target is not under `/scripts/`.
pub fn start(root: &[u8], raw: &[u8]) -> (r: Next)
    ensures
        ({
            let t = tokens(request_line(raw@));
            if t.len() != 3 {
                responds_empty(r, 405)
            } else if t[0] == ascii_bytes("GET"@) {
                get_start(r, root@, t[1])
            } else if t[0] == ascii_bytes("POST"@) {
                post_start(r, root@, raw@, t[1])
            } else {
                responds_empty(r, 405)
            }
        }),
{
    proof {
        reveal_strlit("GET");
        reveal_strlit("POST");
    }
    let req = match parse_request(raw) {
        Ok(req) => req,
        Err(_) => return Next::Respond(Response::status_only(405)),
    };
    if bytes_eq(&req.method, &ascii_of("GET")) {
        match candidate_path(root, &req.target) {
            None => Next::Respond(Response::status_only(403)),
            Some(c) => Next::InspectForGet(c),
        }
    } else if bytes_eq(&req.method, &ascii_of("POST")) {
        if !starts_with_scripts(&req.target) {
            return Next::Respond(Response::status_only(403));
        }
        match candidate_path(root, &req.target) {
            None => Next::Respond(Response::status_only(403)),
            Some(c) => Next::InspectForPost { path: c, request: req },
        }
    } else {
        Next::Respond(Response::status_only(405))
    }
}

fn read_next(c: Vec<u8>) -> (r: Next)
    ensures
        reads_file(r, c@),
{
    let content_type = determine_content_type(&c);
    Next::ReadFile { path: c, content_type }
}

/// GET, once the candidate path has been looked up (`None`: nothing there): a regular file is
/// read, a directory falls back to its `index.html`, a missing path gets 404, and anything
/// outside the root gets 403.
pub fn after_get_lookup(root: &[u8], found: Option<Entry>) -> (r: Next)
    ensures
        match resolve_spec(root@, entry_view(found)) {
            ResolvedSpec::File(c) => reads_file(r, c),
            ResolvedSpec::Directory(d) => r matches Next::InspectIndex(p) && p@ == join(d, index_name()),
            ResolvedSpec::Missing => responds_empty(r, 404),
            ResolvedSpec::Forbidden => responds_empty(r, 403),
        },
{
    match resolve_entry(root, found) {
        ResolvedPath::File(c) => read_next(c),
        ResolvedPath::Directory(d) => Next::InspectIndex(index_path(&d)),
        ResolvedPath::Missing => Next::Respond(Response::status_only(404)),
        ResolvedPath::Forbidden => Next::Respond(Response::status_only(403)),
    }
}

/// GET of a directory, once its `index.html` has been looked up: served where it is a regular
/// file below the root, 403 otherwise.
pub fn after_index_lookup(root: &[u8], found: Option<Entry>) -> (r: Next)
    ensures
        match resolve_index_spec(root@, entry_view(found)) {
            ResolvedSpec::File(c) => reads_file(r, c),
            _ => responds_empty(r, 403),
        },
{
    match resolve_index(root, found) {
        ResolvedPath::File(c) => read_next(c),
        _ => Next::Respond(Response::status_only(403)),
    }
}

/// GET, once the file has been read (`None`: the read failed).
pub fn after_read(content_type: Vec<u8>, contents: Option<Vec<u8>>) -> (r: Next)
    ensures
        match contents {
            Some(b) => match r {
                Next::Respond(resp) => resp.status == 200 && resp.body@ == b@
                    && resp.content_type@ == content_type@,
                _ => false,
            },
            None => responds_empty(r, 500),
        },
{
    match contents {
        Some(b) => Next::Respond(Response { status: 200, content_type, body: b }),
        None => Next::Respond(Response::status_only(500)),
    }
}

/// POST, once the candidate path has been looked up: a regular file below `<root>/scripts`
/// is run, a missing path gets 404, and anything else gets 403.
pub fn after_post_lookup(root: &[u8], request: Request, found: Option<Entry>) -> (r: Next)
    ensures
        match resolve_spec(root@, entry_view(found)) {
            ResolvedSpec::File(c) => if is_under(join(root@, scripts_name()), c) {
                match r {
                    Next::Run(inv) => inv.path@ == c && env_views(inv.env@) == script_env(
                        request.method@,
                        c,
                        request.header_seq(),
                    ),
                    _ => false,
                }
            } else {
                responds_empty(r, 403)
            },
            ResolvedSpec::Missing => responds_empty(r, 404),
            _ => responds_empty(r, 403),
        },
{
    match resolve_entry(root, found) {
        ResolvedPath::File(c) => {
            let scripts = scripts_dir(root);
            if path_is_under(&scripts, &c) {
                let env = parse_headers_as_env_vars(&request, &c);
                Next::Run(ScriptInvocation { path: c, env })
            } else {
                Next::Respond(Response::status_only(403))
            }
        },
        ResolvedPath::Missing => Next::Respond(Response::status_only(404)),
        _ => Next::Respond(Response::status_only(403)),
    }
}

/// POST, once the script has run.
pub fn after_script(outcome: ScriptOutcome) -> (r: Next)
    ensures
        match r {
            Next::Respond(resp) => resp.content_type@ == text_plain() && match outcome {
                ScriptOutcome::Exited { success, stdout, stderr } => if success {
                    resp.status == 200 && resp.body@ == stdout@
                } else {
                    resp.status == 500 && resp.body@ == stderr@
                },
                ScriptOutcome::SpawnFailed => resp.status == 500 && resp.body@.len() == 0,
            },
            _ => false,
        },
{
    Next::Respond(script_response(outcome))
}

} // verus!
