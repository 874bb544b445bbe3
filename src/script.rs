//! Script invocation: the environment a script sees, and how its outcome becomes a response.
use vstd::prelude::*;
use crate::request::{Header, Request};
use crate::response::{Response, plain_type, text_plain};
use crate::text::{ascii_bytes, ascii_of, copy_range, upper_byte};

verus! {

/// One environment variable: name and value.
pub struct EnvVar {
    pub name: Vec<u8>,
    pub value: Vec<u8>,
}

/// A script to run, with the complete environment it gets (nothing is inherited).
/// Variables are set in order, so a later one of the same name wins.
pub struct ScriptInvocation {
    pub path: Vec<u8>,
    pub env: Vec<EnvVar>,
}

/// How a script run ended.
pub enum ScriptOutcome {
    /// The process ran and exited; `success` is a zero exit status.
    Exited { success: bool, stdout: Vec<u8>, stderr: Vec<u8> },
    /// The process could not be started.
    SpawnFailed,
}

impl EnvVar {
    pub open spec fn view_pair(&self) -> (Seq<u8>, Seq<u8>) {
        (self.name@, self.value@)
    }
}

pub open spec fn env_views(e: Seq<EnvVar>) -> Seq<(Seq<u8>, Seq<u8>)> {
    e.map_values(|v: EnvVar| v.view_pair())
}

/// A header-name byte in an environment variable name: upper case, `-` as `_`.
pub open spec fn env_byte(b: u8) -> u8 {
    if b == 45 {
        95
    } else {
        upper_byte(b)
    }
}

/// `HTTP_` followed by the header name in upper case, with `-` as `_`.
pub open spec fn env_name(header_name: Seq<u8>) -> Seq<u8> {
    ascii_bytes("HTTP_"@) + header_name.map_values(|b: u8| env_byte(b))
}

/// The environment of a script: `METHOD`, `PATH`, then one `HTTP_<NAME>` per header, in order.
pub open spec fn script_env(method: Seq<u8>, path: Seq<u8>, headers: Seq<(Seq<u8>, Seq<u8>)>) -> Seq<(Seq<u8>, Seq<u8>)> {
    seq![(ascii_bytes("METHOD"@), method), (ascii_bytes("PATH"@), path)]
        + headers.map_values(|h: (Seq<u8>, Seq<u8>)| env_entry(h))
}

pub open spec fn env_entry(h: (Seq<u8>, Seq<u8>)) -> (Seq<u8>, Seq<u8>) {
    (env_name(h.0), h.1)
}

fn env_var_of(h: &Header) -> (r: EnvVar)
    ensures
        r.view_pair() == (env_name(h.name@), h.value@),
{
    proof {
        reveal_strlit("HTTP_");
    }
    let mut name = ascii_of("HTTP_");
    let src = &h.name;
    let ghost prefix = name@;
    let mut i: usize = 0;
    while i < src.len()
        invariant
            i <= src@.len(),
            name@ == prefix + src@.subrange(0, i as int).map_values(|b: u8| env_byte(b)),
        decreases src@.len() - i,
    {
        let b = src[i];
        let c: u8 = if b == 45 {
            95
        } else if 97 <= b && b <= 122 {
            b - 32
        } else {
            b
        };
        name.push(c);
        assert(src@.subrange(0, i + 1).map_values(|b: u8| env_byte(b)) =~= src@.subrange(0, i as int).map_values(|b: u8| env_byte(b)).push(c));
        assert(prefix + src@.subrange(0, i + 1).map_values(|b: u8| env_byte(b)) =~= (prefix + src@.subrange(0, i as int).map_values(|b: u8| env_byte(b))).push(c));
        i = i + 1;
    }
    assert(src@.subrange(0, src@.len() as int) =~= src@);
    EnvVar { name, value: copy_range(&h.value, 0, h.value.len()) }
}

/// The environment for running the script at `script_path` for `req`.
pub fn parse_headers_as_env_vars(req: &Request, script_path: &[u8]) -> (r: Vec<EnvVar>)
    ensures
        env_views(r@) == script_env(req.method@, script_path@, req.header_seq()),
{
    proof {
        reveal_strlit("METHOD");
        reveal_strlit("PATH");
    }
    let mut env: Vec<EnvVar> = Vec::new();
    let m = EnvVar { name: ascii_of("METHOD"), value: copy_range(&req.method, 0, req.method.len()) };
    let p = EnvVar { name: ascii_of("PATH"), value: copy_range(script_path, 0, script_path.len()) };
    assert(m.view_pair() == (ascii_bytes("METHOD"@), req.method@));
    assert(p.view_pair() == (ascii_bytes("PATH"@), script_path@));
    env.push(m);
    env.push(p);
    let ghost fixed = env_views(env@);
    let ghost hs = req.header_seq();
    assert(fixed =~= seq![(ascii_bytes("METHOD"@), req.method@), (ascii_bytes("PATH"@), script_path@)]);
    let mut i: usize = 0;
    while i < req.headers.len()
        invariant
            i <= req.headers@.len(),
            hs == req.header_seq(),
            hs.len() == req.headers@.len(),
            env_views(env@) == fixed + hs.subrange(0, i as int).map_values(|h: (Seq<u8>, Seq<u8>)| env_entry(h)),
        decreases req.headers@.len() - i,
    {
        let v = env_var_of(&req.headers[i]);
        let ghost before = env_views(env@);
        env.push(v);
        assert(env_views(env@) =~= before.push(v.view_pair()));
        assert(hs[i as int] == req.headers@[i as int].view_pair());
        assert(v.view_pair() == env_entry(hs[i as int]));
        assert(hs.subrange(0, i + 1).map_values(|h: (Seq<u8>, Seq<u8>)| env_entry(h)) =~= hs.subrange(0, i as int).map_values(|h: (Seq<u8>, Seq<u8>)| env_entry(h)).push(env_entry(hs[i as int])));
        assert(fixed + hs.subrange(0, i + 1).map_values(|h: (Seq<u8>, Seq<u8>)| env_entry(h)) =~= (fixed + hs.subrange(0, i as int).map_values(|h: (Seq<u8>, Seq<u8>)| env_entry(h))).push(env_entry(hs[i as int])));
        i = i + 1;
    }
    assert(hs.subrange(0, hs.len() as int) =~= hs);
    env
}

/// The response for a script's outcome: its standard output with 200 on a zero exit status,
/// its standard error with 500 otherwise, and an empty 500 where it could not start.
pub fn script_response(outcome: ScriptOutcome) -> (r: Response)
    ensures
        r.content_type@ == text_plain(),
        match outcome {
            ScriptOutcome::Exited { success, stdout, stderr } => if success {
                r.status == 200 && r.body@ == stdout@
            } else {
                r.status == 500 && r.body@ == stderr@
            },
            ScriptOutcome::SpawnFailed => r.status == 500 && r.body@.len() == 0,
        },
{
    match outcome {
        ScriptOutcome::Exited { success, stdout, stderr } => {
            if success {
                Response { status: 200, content_type: plain_type(), body: stdout }
            } else {
                Response { status: 500, content_type: plain_type(), body: stderr }
            }
        },
        ScriptOutcome::SpawnFailed => Response::status_only(500),
    }
}

} // verus!
