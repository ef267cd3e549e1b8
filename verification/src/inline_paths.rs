//! The inline-override index: user-supplied file or directory paths
//! whose content must always stay expanded in place, never replaced by a
//! synthesized `#include`.
use vstd::prelude::*;

use crate::errors::{Error, ErrorSpec};
use crate::paths::{is_ancestor, is_path_ancestor, resolve_path};
use crate::text::{path_views, str_eq};

verus! {

/// Whether some indexed path equals `p` or names a directory above it.
pub open spec fn covers(dirs: Seq<Seq<char>>, p: Seq<char>) -> bool {
    exists|k: int| 0 <= k < dirs.len() && (dirs[k] == p || is_ancestor(dirs[k], p))
}

/// Write-once set of canonicalized always-inline paths.
pub struct InlinePaths {
    paths: Vec<String>,
}

impl View for InlinePaths {
    type V = Seq<Seq<char>>;

    closed spec fn view(&self) -> Seq<Seq<char>> {
        path_views(self.paths@)
    }
}

impl InlinePaths {
    /// Canonicalizes each configured path at construction; a path that
    /// does not exist on the filesystem is a fatal configuration error.
    pub fn new(paths: Vec<String>) -> (r: Result<InlinePaths, Error>)
        ensures
            r matches Ok(ip) ==> ip@.len() == paths@.len(),
            r matches Err(e) ==> {
                &&& e@ matches ErrorSpec::InlinePathInvalid { path }
                &&& exists|k: int| 0 <= k < paths@.len() && paths@[k]@ == path
            },
    {
        let mut resolved: Vec<String> = Vec::new();
        let mut idx: usize = 0;
        let n = paths.len();
        while idx < n
            invariant
                idx <= n,
                n == paths@.len(),
                resolved@.len() == idx,
            decreases n - idx,
        {
            let path = &paths[idx];
            match resolve_path(path.as_str()) {
                Some(p) => {
                    resolved.push(p);
                },
                None => {
                    return Err(Error::InlinePathInvalid { path: path.clone() });
                },
            }
            idx = idx + 1;
        }
        proof {
            assert(path_views(resolved@).len() == resolved@.len());
        }
        Ok(InlinePaths { paths: resolved })
    }

    /// Whether `path` is covered by the index: some entry equals it or
    /// is an ancestor of it.
    pub fn should_inline(&self, path: &str) -> (r: bool)
        ensures
            r == covers(self@, path@),
    {
        let n = self.paths.len();
        let mut k: usize = 0;
        while k < n
            invariant
                k <= n,
                n == self.paths@.len(),
                self@ == path_views(self.paths@),
                forall|j: int|
                    0 <= j < k ==> !(self@[j] == path@ || is_ancestor(self@[j], path@)),
            decreases n - k,
        {
            let entry = &self.paths[k];
            if str_eq(entry.as_str(), path) || is_path_ancestor(entry.as_str(), path) {
                proof {
                    assert(self@[k as int] == entry@);
                }
                return true;
            }
            k = k + 1;
        }
        false
    }
}

} // verus!
