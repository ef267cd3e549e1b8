//! The search-path index: the compiler's system include directories,
//! read from the diagnostic listing the preprocessor prints, and the
//! longest-ancestor lookup that turns an absolute header path into a
//! portable bracketed include name.
use vstd::prelude::*;

use crate::errors::{Error, ErrorSpec};
use crate::paths::{
    is_ancestor, is_path_ancestor, lemma_equal_length_ancestors, resolve_path, strip_ancestor,
};
use crate::text::{is_prefix, path_views, str_has_prefix, trim_str, trimmed};

verus! {

/// The line on which the directory listing begins.
pub open spec fn search_start_marker() -> Seq<char> {
    "#include <...> search starts here:"@
}

/// The line on which the directory listing ends.
pub open spec fn search_end_marker() -> Seq<char> {
    "End of search list."@
}

/// The directory lines of a diagnostic stream: every line strictly
/// between the start marker and the end marker, trimmed of surrounding
/// whitespace.
pub open spec fn search_list(lines: Seq<Seq<char>>, parsing: bool) -> Seq<Seq<char>>
    decreases lines.len(),
{
    if lines.len() == 0 {
        Seq::empty()
    } else {
        let l = lines[0];
        let rest = lines.drop_first();
        if is_prefix(search_start_marker(), l) {
            search_list(rest, true)
        } else if is_prefix(search_end_marker(), l) {
            Seq::empty()
        } else if parsing {
            seq![trimmed(l)] + search_list(rest, parsing)
        } else {
            search_list(rest, parsing)
        }
    }
}

/// Whether some indexed directory lies strictly above `p`.
pub open spec fn has_ancestor_in(dirs: Seq<Seq<char>>, p: Seq<char>) -> bool {
    exists|k: int| 0 <= k < dirs.len() && is_ancestor(dirs[k], p)
}

/// Whether `k` points at a deepest indexed ancestor of `p`.
pub open spec fn is_longest_ancestor(dirs: Seq<Seq<char>>, p: Seq<char>, k: int) -> bool {
    &&& 0 <= k < dirs.len()
    &&& is_ancestor(dirs[k], p)
    &&& forall|j: int| 0 <= j < dirs.len() && is_ancestor(dirs[j], p) ==> dirs[j].len()
        <= dirs[k].len()
}

/// The include name `p` gets: what is left below the deepest indexed
/// ancestor, or nothing when no indexed directory lies above `p`.
pub open spec fn cleanup_spec(dirs: Seq<Seq<char>>, p: Seq<char>) -> Option<Seq<char>> {
    if has_ancestor_in(dirs, p) {
        let k = choose|k: int| is_longest_ancestor(dirs, p, k);
        Some(strip_ancestor(dirs[k], p))
    } else {
        None
    }
}

/// Among the ancestors of `p` there is always a deepest one.
pub proof fn lemma_longest_ancestor_exists(dirs: Seq<Seq<char>>, p: Seq<char>)
    requires
        has_ancestor_in(dirs, p),
    ensures
        exists|k: int| is_longest_ancestor(dirs, p, k),
    decreases dirs.len(),
{
    let d = dirs.drop_last();
    let last = dirs.len() - 1;
    if has_ancestor_in(d, p) {
        lemma_longest_ancestor_exists(d, p);
        let k0 = choose|k: int| is_longest_ancestor(d, p, k);
        assert(dirs[k0] == d[k0]);
        if is_ancestor(dirs.last(), p) && dirs.last().len() > dirs[k0].len() {
            assert forall|j: int| 0 <= j < dirs.len() && is_ancestor(dirs[j], p) implies dirs[j].len()
                <= dirs[last].len() by {
                if j < last {
                    assert(is_ancestor(d[j], p));
                    assert(d[j].len() <= d[k0].len());
                }
            }
            assert(is_longest_ancestor(dirs, p, last));
        } else {
            assert forall|j: int| 0 <= j < dirs.len() && is_ancestor(dirs[j], p) implies dirs[j].len()
                <= dirs[k0].len() by {
                if j < last {
                    assert(is_ancestor(d[j], p));
                    assert(d[j].len() <= d[k0].len());
                }
            }
            assert(is_longest_ancestor(dirs, p, k0));
        }
    } else {
        let w = choose|k: int| 0 <= k < dirs.len() && is_ancestor(dirs[k], p);
        assert(w == last) by {
            if w < last {
                assert(is_ancestor(d[w], p));
            }
        }
        assert forall|j: int| 0 <= j < dirs.len() && is_ancestor(dirs[j], p) implies dirs[j].len()
            <= dirs[last].len() by {
            if j < last {
                assert(is_ancestor(d[j], p));
            }
        }
        assert(is_longest_ancestor(dirs, p, last));
    }
}

/// Every deepest ancestor yields the same include name.
pub proof fn lemma_cleanup_unique(dirs: Seq<Seq<char>>, p: Seq<char>, k: int)
    requires
        is_longest_ancestor(dirs, p, k),
    ensures
        cleanup_spec(dirs, p) == Some(strip_ancestor(dirs[k], p)),
{
    let k1 = choose|k1: int| is_longest_ancestor(dirs, p, k1);
    assert(is_longest_ancestor(dirs, p, k1)) by {
        lemma_longest_ancestor_exists(dirs, p);
    }
    assert(dirs[k].len() == dirs[k1].len());
    lemma_equal_length_ancestors(dirs[k], dirs[k1], p);
}

/// Write-once set of the compiler's canonicalized system include
/// directories.
pub struct SearchPaths {
    search_paths: Vec<String>,
}

/// Reads the directory lines out of a captured diagnostic stream,
/// trimmed, in order.
pub fn search_list_lines(stderr_lines: &Vec<String>) -> (r: Vec<String>)
    ensures
        path_views(r@) == search_list(path_views(stderr_lines@), false),
{
    let ghost vs = path_views(stderr_lines@);
    let mut out: Vec<String> = Vec::new();
    let mut parsing = false;
    let mut i: usize = 0;
    let n = stderr_lines.len();
    proof {
        assert(vs.subrange(0, n as int) =~= vs);
        assert(path_views(out@) + search_list(vs, false) =~= search_list(vs, false));
    }
    loop
        invariant
            i <= n,
            n == stderr_lines@.len(),
            vs == path_views(stderr_lines@),
            search_list(vs, false) == path_views(out@) + search_list(
                vs.subrange(i as int, n as int),
                parsing,
            ),
        decreases n - i,
    {
        if i == n {
            proof {
                assert(search_list(vs.subrange(n as int, n as int), parsing) =~= Seq::<
                    Seq<char>,
                >::empty());
                assert(path_views(out@) + Seq::<Seq<char>>::empty() =~= path_views(out@));
            }
            return out;
        }
        let line = &stderr_lines[i];
        let ghost tail = vs.subrange(i as int, n as int);
        proof {
            assert(tail[0] == vs[i as int]);
            assert(vs[i as int] == line@);
            assert(tail.drop_first() =~= vs.subrange(i as int + 1, n as int));
        }
        if str_has_prefix(line.as_str(), "#include <...> search starts here:") {
            parsing = true;
        } else if str_has_prefix(line.as_str(), "End of search list.") {
            proof {
                assert(path_views(out@) + Seq::<Seq<char>>::empty() =~= path_views(out@));
            }
            return out;
        } else if parsing {
            let t = trim_str(line.as_str());
            out.push(t);
            proof {
                assert(path_views(out@) =~= path_views(out@.drop_last()) + seq![trimmed(line@)]);
                assert((path_views(out@.drop_last()) + seq![trimmed(line@)]) + search_list(
                    tail.drop_first(),
                    parsing,
                ) =~= path_views(out@.drop_last()) + (seq![trimmed(line@)] + search_list(
                    tail.drop_first(),
                    parsing,
                )));
            }
        }
        i = i + 1;
    }
}

impl View for SearchPaths {
    type V = Seq<Seq<char>>;

    closed spec fn view(&self) -> Seq<Seq<char>> {
        path_views(self.search_paths@)
    }
}

impl SearchPaths {
    /// Builds the index from the preprocessor's captured diagnostic
    /// stream: every directory line between the two markers is
    /// canonicalized and inserted. A directory that does not exist on
    /// the filesystem is fatal.
    pub fn new(stderr_lines: Vec<String>) -> (r: Result<SearchPaths, Error>)
        ensures
            r matches Ok(sp) ==> sp@.len() == search_list(
                path_views(stderr_lines@),
                false,
            ).len(),
            r matches Err(e) ==> {
                &&& e@ matches ErrorSpec::SearchPathInvalid { path }
                &&& search_list(path_views(stderr_lines@), false).contains(path)
            },
    {
        let entries = search_list_lines(&stderr_lines);
        let mut resolved: Vec<String> = Vec::new();
        let mut idx: usize = 0;
        let n = entries.len();
        while idx < n
            invariant
                idx <= n,
                n == entries@.len(),
                path_views(entries@) == search_list(path_views(stderr_lines@), false),
                resolved@.len() == idx,
            decreases n - idx,
        {
            let entry = &entries[idx];
            match resolve_path(entry.as_str()) {
                Some(p) => {
                    resolved.push(p);
                },
                None => {
                    proof {
                        assert(path_views(entries@)[idx as int] == entry@);
                    }
                    return Err(Error::SearchPathInvalid { path: entry.clone() });
                },
            }
            idx = idx + 1;
        }
        proof {
            assert(path_views(resolved@).len() == resolved@.len());
        }
        Ok(SearchPaths { search_paths: resolved })
    }

    /// Turns the absolute path of a replaceable header into its include
    /// name: what is left below the deepest indexed search directory.
    /// A path under no indexed directory is an error, never a silently
    /// unprefixed name.
    pub fn cleanup_path(&self, absolute_path: &str) -> (r: Result<String, Error>)
        ensures
            r matches Ok(name) ==> cleanup_spec(self@, absolute_path@) == Some(name@),
            r matches Err(e) ==> {
                &&& cleanup_spec(self@, absolute_path@) is None
                &&& e@ == (ErrorSpec::NotInSearchPaths { path: absolute_path@ })
            },
    {
        let n = self.search_paths.len();
        let mut best: Option<usize> = None;
        let mut best_len: usize = 0;
        let mut k: usize = 0;
        while k < n
            invariant
                k <= n,
                n == self.search_paths@.len(),
                self@ == path_views(self.search_paths@),
                match best {
                    Some(b) => {
                        &&& b < n
                        &&& is_ancestor(self@[b as int], absolute_path@)
                        &&& best_len == self@[b as int].len()
                        &&& forall|j: int|
                            0 <= j < k && is_ancestor(self@[j], absolute_path@) ==> self@[j].len()
                                <= best_len
                    },
                    None => forall|j: int|
                        0 <= j < k ==> !is_ancestor(self@[j], absolute_path@),
                },
            decreases n - k,
        {
            let entry = &self.search_paths[k];
            proof {
                assert(self@[k as int] == entry@);
            }
            if is_path_ancestor(entry.as_str(), absolute_path) {
                let el = entry.as_str().unicode_len();
                match best {
                    None => {
                        best = Some(k);
                        best_len = el;
                    },
                    Some(_) => {
                        if el > best_len {
                            best = Some(k);
                            best_len = el;
                        }
                    },
                }
            }
            k = k + 1;
        }
        match best {
            None => {
                assert(!has_ancestor_in(self@, absolute_path@));
                Err(
                    Error::NotInSearchPaths {
                        path: absolute_path.to_owned(),
                    },
                )
            },
            Some(b) => {
                proof {
                    assert(is_longest_ancestor(self@, absolute_path@, b as int));
                    lemma_cleanup_unique(self@, absolute_path@, b as int);
                }
                let entry = &self.search_paths[b];
                let dl = entry.as_str().unicode_len();
                let pl = absolute_path.unicode_len();
                let name = if absolute_path.get_char(dl) == '/' {
                    absolute_path.substring_char(dl + 1, pl)
                } else {
                    absolute_path.substring_char(dl, pl)
                };
                Ok(name.to_owned())
            },
        }
    }
}

} // verus!
