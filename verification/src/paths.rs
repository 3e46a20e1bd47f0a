//! Unix path arithmetic on strings, as `std::path` performs it.
use vstd::prelude::*;

verus! {

/// The path that `Path::new(root).join(p)` denotes on Unix: an absolute `p`
/// (one starting with `/`) replaces the root; otherwise `p` is appended after a
/// separator, which is added only when the root is non-empty and does not
/// already end with one.
pub open spec fn join_path(root: Seq<char>, p: Seq<char>) -> Seq<char> {
    if p.len() > 0 && p[0] == '/' {
        p
    } else if root.len() > 0 && root.last() != '/' {
        root + seq!['/'] + p
    } else {
        root + p
    }
}

/// What `Path::file_name` returns for the path `p`: its final component, if
/// that is a normal name (not the root, `.` or `..`).
pub uninterp spec fn path_file_name(p: Seq<char>) -> Option<Seq<char>>;

/// What `Path::parent` returns for the path `p`: the path without its final
/// component, if there is one.
pub uninterp spec fn path_parent(p: Seq<char>) -> Option<Seq<char>>;

/// The final component of `p`, through `Path::file_name` (lossily converted).
#[verifier::external_body]
pub fn file_name(p: &str) -> (r: Option<String>)
    ensures
        r matches Some(n) ==> path_file_name(p@) == Some(n@),
        r is None ==> path_file_name(p@) is None,
{
    std::path::Path::new(p).file_name().map(|n| n.to_string_lossy().into_owned())
}

/// The parent of `p`, through `Path::parent` (lossily converted).
#[verifier::external_body]
pub fn parent(p: &str) -> (r: Option<String>)
    ensures
        r matches Some(d) ==> path_parent(p@) == Some(d@),
        r is None ==> path_parent(p@) is None,
{
    std::path::Path::new(p).parent().map(|d| d.to_string_lossy().into_owned())
}

/// Joins `p` onto `root` as `Path::join` does on Unix.
pub fn join(root: &str, p: &str) -> (r: String)
    ensures
        r@ == join_path(root@, p@),
{
    let pc = crate::text::chars_of(p);
    if pc.len() > 0 && pc[0] == '/' {
        return p.to_owned();
    }
    let rc = crate::text::chars_of(root);
    let mut r = root.to_owned();
    if rc.len() > 0 && rc[rc.len() - 1] != '/' {
        r.append("/");
        proof {
            reveal_strlit("/");
        }
    }
    r.append(p);
    r
}


/// What `Path::strip_prefix(base)` returns for the path `p`: the rest of `p`
/// after the components of `base`, if `p` starts with them.
pub uninterp spec fn path_strip_prefix(p: Seq<char>, base: Seq<char>) -> Option<Seq<char>>;

/// `p` relative to `base`, through `Path::strip_prefix` (lossily converted).
#[verifier::external_body]
pub fn strip_prefix(p: &str, base: &str) -> (r: Option<String>)
    ensures
        r matches Some(q) ==> path_strip_prefix(p@, base@) == Some(q@),
        r is None ==> path_strip_prefix(p@, base@) is None,
{
    std::path::Path::new(p).strip_prefix(base).ok().map(|q| q.to_string_lossy().into_owned())
}

} // verus!
