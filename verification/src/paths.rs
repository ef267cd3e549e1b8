//! The path model shared by the two indices: directory-ancestor tests
//! over canonical absolute paths, and resolution of a written path to
//! its canonical form.
use vstd::prelude::*;

use crate::text::is_prefix;

verus! {

/// `d` names a directory strictly above `p`: `d` stands at the front of
/// `p` and the split falls on a path separator.
pub open spec fn is_ancestor(d: Seq<char>, p: Seq<char>) -> bool {
    &&& d.len() < p.len()
    &&& p.subrange(0, d.len() as int) == d
    &&& (p[d.len() as int] == '/' || (d.len() > 0 && d.last() == '/'))
}

/// What is left of `p` below its ancestor `d`, without the leading
/// separator.
pub open spec fn strip_ancestor(d: Seq<char>, p: Seq<char>) -> Seq<char> {
    if p[d.len() as int] == '/' {
        p.subrange(d.len() as int + 1, p.len() as int)
    } else {
        p.subrange(d.len() as int, p.len() as int)
    }
}

/// Two ancestors of one path of equal length are the same directory.
pub proof fn lemma_equal_length_ancestors(d1: Seq<char>, d2: Seq<char>, p: Seq<char>)
    requires
        is_ancestor(d1, p),
        is_ancestor(d2, p),
        d1.len() == d2.len(),
    ensures
        d1 == d2,
{
    assert(d1 =~= d2);
}

/// Whether `d` names a directory strictly above `p`, checked over the
/// characters.
pub fn is_path_ancestor(d: &str, p: &str) -> (r: bool)
    ensures
        r == is_ancestor(d@, p@),
{
    let dl = d.unicode_len();
    let pl = p.unicode_len();
    if dl >= pl {
        return false;
    }
    if !crate::text::str_has_prefix(p, d) {
        return false;
    }
    if p.get_char(dl) == '/' {
        return true;
    }
    if dl > 0 && d.get_char(dl - 1) == '/' {
        return true;
    }
    false
}

/// Relies on `std::path::Path::canonicalize`: resolves a written path to
/// an absolute path with symbolic links followed, reading the
/// filesystem. `None` when the path does not exist or the canonical
/// form is not text. What came back is only a value to the caller;
/// nothing is assumed of it.
#[verifier::external_body]
pub fn resolve_path(written: &str) -> (r: Option<String>) {
    match std::path::Path::new(written).canonicalize() {
        Ok(p) => match p.into_os_string().into_string() {
            Ok(s) => Some(s),
            Err(_) => None,
        },
        Err(_) => None,
    }
}

} // verus!
