//! Resolution of a request target against the root directory, with containment checks.
use vstd::prelude::*;
use crate::text::{ascii_bytes, ascii_of, copy_range};

verus! {

/// What the file system holds at a canonical path.
#[derive(Debug, Clone, Copy, PartialEq, Eq, Structural)]
pub enum EntryKind {
    RegularFile,
    Directory,
    Other,
}

/// An existing path in canonical form (symbolic links, `.` and `..` resolved) and its kind.
pub struct Entry {
    pub canonical: Vec<u8>,
    pub kind: EntryKind,
}

/// Where a request target leads.
pub enum ResolvedPath {
    File(Vec<u8>),
    Directory(Vec<u8>),
    Missing,
    Forbidden,
}

/// `t` has a `..` path segment.
pub open spec fn has_dotdot_segment(t: Seq<u8>) -> bool {
    exists|i: int| is_dotdot_at(t, i)
}

pub open spec fn is_dotdot_at(t: Seq<u8>, i: int) -> bool {
    &&& 0 <= i
    &&& i + 2 <= t.len()
    &&& t[i] == 46
    &&& t[i + 1] == 46
    &&& (i == 0 || t[i - 1] == 47)
    &&& (i + 2 == t.len() || t[i + 2] == 47)
}

/// `p` is `base` or lies below it, component-wise.
pub open spec fn is_under(base: Seq<u8>, p: Seq<u8>) -> bool {
    &&& p.len() >= base.len()
    &&& p.subrange(0, base.len() as int) == base
    &&& (p.len() == base.len() || (base.len() > 0 && base.last() == 47) || p[base.len() as int] == 47)
}

/// `rel` appended to the directory `dir`, with one separator between them.
pub open spec fn join(dir: Seq<u8>, rel: Seq<u8>) -> Seq<u8> {
    if dir.len() > 0 && dir.last() == 47 {
        dir + rel
    } else {
        dir.push(47) + rel
    }
}

/// The path a target names below `root`: none where the target does not start with `/`
/// or has a `..` segment.
pub open spec fn candidate_of(root: Seq<u8>, target: Seq<u8>) -> Option<Seq<u8>> {
    if target.len() == 0 || target[0] != 47 || has_dotdot_segment(target) {
        None
    } else {
        Some(join(root, target.drop_first()))
    }
}

pub open spec fn index_name() -> Seq<u8> {
    ascii_bytes("index.html"@)
}

pub open spec fn scripts_name() -> Seq<u8> {
    ascii_bytes("scripts"@)
}

/// The mathematical form of a [`ResolvedPath`].
pub enum ResolvedSpec {
    File(Seq<u8>),
    Directory(Seq<u8>),
    Missing,
    Forbidden,
}

impl View for ResolvedPath {
    type V = ResolvedSpec;

    open spec fn view(&self) -> ResolvedSpec {
        match self {
            ResolvedPath::File(x) => ResolvedSpec::File(x@),
            ResolvedPath::Directory(x) => ResolvedSpec::Directory(x@),
            ResolvedPath::Missing => ResolvedSpec::Missing,
            ResolvedPath::Forbidden => ResolvedSpec::Forbidden,
        }
    }
}

pub open spec fn entry_view(e: Option<Entry>) -> Option<(Seq<u8>, EntryKind)> {
    match e {
        Some(e) => Some((e.canonical@, e.kind)),
        None => None,
    }
}

/// The outcome of looking up a candidate path, given what the file system reported for it:
/// nothing there, or its canonical form and kind.
pub open spec fn resolve_spec(root: Seq<u8>, found: Option<(Seq<u8>, EntryKind)>) -> ResolvedSpec {
    match found {
        None => ResolvedSpec::Missing,
        Some((c, k)) => if !is_under(root, c) {
            ResolvedSpec::Forbidden
        } else if k == EntryKind::RegularFile {
            ResolvedSpec::File(c)
        } else if k == EntryKind::Directory {
            ResolvedSpec::Directory(c)
        } else {
            ResolvedSpec::Forbidden
        },
    }
}

/// The outcome of looking up `index.html` inside a directory: only a regular file below
/// `root` is served, anything else is forbidden (no directory listing).
pub open spec fn resolve_index_spec(root: Seq<u8>, found: Option<(Seq<u8>, EntryKind)>) -> ResolvedSpec {
    match resolve_spec(root, found) {
        ResolvedSpec::File(c) => ResolvedSpec::File(c),
        _ => ResolvedSpec::Forbidden,
    }
}

/// A target with a `..` segment is forbidden before the file system is asked, whatever the
/// path would resolve to.
pub proof fn lemma_dotdot_forbidden(root: Seq<u8>, target: Seq<u8>)
    requires
        has_dotdot_segment(target),
    ensures
        candidate_of(root, target) is None,
{
}

/// A directory's `index.html` that is a regular file resolves exactly as a direct request
/// for that file does.
pub proof fn lemma_index_like_direct(root: Seq<u8>, c: Seq<u8>)
    ensures
        resolve_index_spec(root, Some((c, EntryKind::RegularFile))) == resolve_spec(
            root,
            Some((c, EntryKind::RegularFile)),
        ),
{
}

/// Where a directory holds no `index.html` that is a regular file, the directory is forbidden.
pub proof fn lemma_no_index_forbidden(root: Seq<u8>, found: Option<(Seq<u8>, EntryKind)>)
    requires
        found is None || found.unwrap().1 != EntryKind::RegularFile,
    ensures
        resolve_index_spec(root, found) == ResolvedSpec::Forbidden,
{
}

/// Whether `t` has a `..` segment.
pub fn contains_dotdot_segment(t: &[u8]) -> (r: bool)
    ensures
        r == has_dotdot_segment(t@),
{
    let n = t.len();
    let mut i: usize = 0;
    while n >= 2 && i <= n - 2
        invariant
            n == t@.len(),
            forall|j: int| 0 <= j < i ==> !is_dotdot_at(t@, j),
        decreases n - i,
    {
        if t[i] == 46 && t[i + 1] == 46 && (i == 0 || t[i - 1] == 47) && (i + 2 == n || t[i + 2] == 47) {
            assert(is_dotdot_at(t@, i as int));
            return true;
        }
        i = i + 1;
    }
    assert forall|j: int| !is_dotdot_at(t@, j) by {
        if 0 <= j < i {
        } else if j >= i {
            assert(n < 2 || i > n - 2);
        }
    }
    false
}

/// Whether `p` is `base` or lies below it.
pub fn path_is_under(base: &[u8], p: &[u8]) -> (r: bool)
    ensures
        r == is_under(base@, p@),
{
    let bn = base.len();
    let pn = p.len();
    if pn < bn {
        return false;
    }
    let mut i: usize = 0;
    while i < bn
        invariant
            bn == base@.len(),
            pn == p@.len(),
            bn <= pn,
            i <= bn,
            p@.subrange(0, i as int) == base@.subrange(0, i as int),
        decreases bn - i,
    {
        if p[i] != base[i] {
            assert(p@.subrange(0, bn as int)[i as int] != base@[i as int]);
            return false;
        }
        assert(p@.subrange(0, i + 1) =~= p@.subrange(0, i as int).push(p@[i as int]));
        assert(base@.subrange(0, i + 1) =~= base@.subrange(0, i as int).push(base@[i as int]));
        i = i + 1;
    }
    assert(base@.subrange(0, bn as int) =~= base@);
    pn == bn || (bn > 0 && base[bn - 1] == 47) || p[bn] == 47
}

/// `rel` appended to the directory `dir`.
pub fn join_path(dir: &[u8], rel: &[u8]) -> (r: Vec<u8>)
    ensures
        r@ == join(dir@, rel@),
{
    let mut r = copy_range(dir, 0, dir.len());
    if !(dir.len() > 0 && dir[dir.len() - 1] == 47) {
        r.push(47);
    }
    let mut i: usize = 0;
    let ghost start = r@;
    while i < rel.len()
        invariant
            i <= rel@.len(),
            r@ == start + rel@.subrange(0, i as int),
        decreases rel@.len() - i,
    {
        r.push(rel[i]);
        assert(start + rel@.subrange(0, i + 1) =~= (start + rel@.subrange(0, i as int)).push(rel@[i as int]));
        i = i + 1;
    }
    assert(rel@.subrange(0, rel@.len() as int) =~= rel@);
    proof {
        assert(dir@.subrange(0, dir@.len() as int) =~= dir@);
    }
    r
}

/// The path below `root` that a request target names, before the file system is asked:
/// `None` (forbidden) where the target does not start with `/` or has a `..` segment,
/// whether or not the path would stay below `root`.
pub fn candidate_path(root: &[u8], target: &[u8]) -> (r: Option<Vec<u8>>)
    ensures
        match r {
            Some(p) => candidate_of(root@, target@) == Some(p@),
            None => candidate_of(root@, target@) is None,
        },
{
    if target.len() == 0 || target[0] != 47 || contains_dotdot_segment(target) {
        return None;
    }
    let rel = copy_range(target, 1, target.len());
    assert(rel@ =~= target@.drop_first());
    Some(join_path(root, &rel))
}

/// Resolves a candidate path from what the file system reported for it.
pub fn resolve_entry(root: &[u8], found: Option<Entry>) -> (r: ResolvedPath)
    ensures
        r@ == resolve_spec(root@, entry_view(found)),
{
    match found {
        None => ResolvedPath::Missing,
        Some(e) => {
            if !path_is_under(root, &e.canonical) {
                ResolvedPath::Forbidden
            } else {
                match e.kind {
                    EntryKind::RegularFile => ResolvedPath::File(e.canonical),
                    EntryKind::Directory => ResolvedPath::Directory(e.canonical),
                    EntryKind::Other => ResolvedPath::Forbidden,
                }
            }
        },
    }
}

/// Resolves the `index.html` of a directory from what the file system reported for it.
pub fn resolve_index(root: &[u8], found: Option<Entry>) -> (r: ResolvedPath)
    ensures
        r@ == resolve_index_spec(root@, entry_view(found)),
{
    match resolve_entry(root, found) {
        ResolvedPath::File(c) => ResolvedPath::File(c),
        _ => ResolvedPath::Forbidden,
    }
}

/// The path of `index.html` inside `dir`.
pub fn index_path(dir: &[u8]) -> (r: Vec<u8>)
    ensures
        r@ == join(dir@, index_name()),
{
    proof {
        reveal_strlit("index.html");
    }
    let name = ascii_of("index.html");
    join_path(dir, &name)
}

/// The directory below `root` from which scripts may run.
pub fn scripts_dir(root: &[u8]) -> (r: Vec<u8>)
    ensures
        r@ == join(root@, scripts_name()),
{
    proof {
        reveal_strlit("scripts");
    }
    let name = ascii_of("scripts");
    join_path(root, &name)
}

} // verus!
