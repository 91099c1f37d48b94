//! The decisions behind the filesystem-aware helpers. Disambiguation:
//! given the names of a directory's sibling directories, the shortest
//! prefix of a segment that none of them starts with. Git-root detection:
//! where the upward walk starts, and at each directory whether it stops
//! (with the directory's name) or goes on to the parent. Asking the disk
//! (listing a directory, looking for `.git`) is left to the caller.
use crate::strategy::fish::{string_views, take_at_most};
use crate::text::{chars_eq, chars_of, chars_of_string, copy_range, string_of};
use vstd::prelude::*;

verus! {

/// The first `len` characters of `seg` are not the first `len` characters
/// of any sibling other than `seg` itself.
pub open spec fn prefix_is_free(seg: Seq<char>, siblings: Seq<Seq<char>>, len: int) -> bool {
    forall|j: int|
        0 <= j < siblings.len() && siblings[j] != seg ==> #[trigger] take_at_most(siblings[j], len)
            != take_at_most(seg, len)
}

/// The least `len` from `from` up to the length of `seg` whose prefix is
/// free, if any.
pub open spec fn first_free_len(seg: Seq<char>, siblings: Seq<Seq<char>>, from: int) -> Option<int>
    decreases seg.len() + 1 - from,
{
    if from < 1 || from > seg.len() {
        None
    } else if prefix_is_free(seg, siblings, from) {
        Some(from)
    } else {
        first_free_len(seg, siblings, from + 1)
    }
}

/// The shortest prefix of `seg` that no other sibling starts with, or `seg`
/// itself when no shorter one is free.
pub open spec fn disambiguate_spec(seg: Seq<char>, siblings: Seq<Seq<char>>) -> Seq<char> {
    match first_free_len(seg, siblings, 1) {
        Some(len) => take_at_most(seg, len),
        None => seg,
    }
}

/// Whether some sibling other than `seg` exists.
fn has_other(seg: &Vec<char>, sibs: &Vec<Vec<char>>) -> (r: bool)
    ensures
        r == exists|j: int| 0 <= j < sibs@.len() && #[trigger] sibs@[j]@ != seg@,
{
    let mut j: usize = 0;
    while j < sibs.len()
        invariant
            j <= sibs.len(),
            forall|k: int| 0 <= k < j ==> #[trigger] sibs@[k]@ == seg@,
        decreases sibs.len() - j,
    {
        if !chars_eq(&sibs[j], seg) {
            return true;
        }
        j = j + 1;
    }
    false
}

/// The first `len` characters of `v` (all of it when shorter).
fn take_prefix(v: &Vec<char>, len: usize) -> (r: Vec<char>)
    ensures
        r@ == take_at_most(v@, len as int),
{
    if len < v.len() {
        copy_range(v, 0, len)
    } else {
        let r = copy_range(v, 0, v.len());
        assert(v@.subrange(0, v@.len() as int) =~= v@);
        r
    }
}

/// Find the shortest unique prefix for a directory name among the names of
/// its sibling directories. Returns the full name if no shorter prefix is unique.
pub fn disambiguate_among(segment: &str, siblings: &[String]) -> (r: String)
    ensures
        r@ == disambiguate_spec(segment@, string_views(siblings@)),
{
    let seg = chars_of(segment);
    let ghost sv = string_views(siblings@);
    let mut sibs: Vec<Vec<char>> = Vec::new();
    let mut i: usize = 0;
    while i < siblings.len()
        invariant
            i <= siblings@.len(),
            sv == string_views(siblings@),
            sibs@.len() == i,
            forall|k: int| 0 <= k < i ==> #[trigger] sibs@[k]@ == sv[k],
        decreases siblings@.len() - i,
    {
        sibs.push(chars_of_string(&siblings[i]));
        i = i + 1;
    }
    if !has_other(&seg, &sibs) {
        // No siblings — 1 char is enough
        proof {
            assert forall|j: int| 0 <= j < sv.len() && sv[j] != seg@ implies #[trigger] take_at_most(
                sv[j],
                1,
            ) != take_at_most(seg@, 1) by {
                assert(sibs@[j]@ == sv[j]);
            }
            assert(prefix_is_free(seg@, sv, 1));
        }
        if seg.len() == 0 {
            return String::new();
        }
        return string_of(&take_prefix(&seg, 1));
    }
    let mut len: usize = 1;
    while len <= seg.len()
        invariant
            1 <= len,
            seg@ == segment@,
            sv == string_views(siblings@),
            sibs@.len() == sv.len(),
            forall|k: int| 0 <= k < sv.len() ==> #[trigger] sibs@[k]@ == sv[k],
            first_free_len(seg@, sv, 1) == first_free_len(seg@, sv, len as int),
        decreases seg.len() + 1 - len,
    {
        let prefix = take_prefix(&seg, len);
        let mut is_unique = true;
        let mut j: usize = 0;
        while j < sibs.len()
            invariant
                1 <= len <= seg.len(),
                sibs@.len() == sv.len(),
                j <= sibs.len(),
                prefix@ == take_at_most(seg@, len as int),
                forall|k: int| 0 <= k < sv.len() ==> #[trigger] sibs@[k]@ == sv[k],
                is_unique == forall|k: int|
                    0 <= k < j && sv[k] != seg@ ==> #[trigger] take_at_most(sv[k], len as int)
                        != take_at_most(seg@, len as int),
            decreases sibs.len() - j,
        {
            if !chars_eq(&sibs[j], &seg) {
                let s_prefix = take_prefix(&sibs[j], len);
                if chars_eq(&s_prefix, &prefix) {
                    is_unique = false;
                }
            }
            j = j + 1;
        }
        if is_unique {
            assert(prefix_is_free(seg@, sv, len as int));
            return string_of(&prefix);
        }
        assert(!prefix_is_free(seg@, sv, len as int));
        if len == seg.len() {
            assert(first_free_len(seg@, sv, len + 1) is None);
            return string_of(&seg);
        }
        len = len + 1;
    }
    string_of(&seg)
}

/// The parent of path `p` as `std::path::Path::parent` gives it, under
/// the path rules of the target the library is built for.
pub uninterp spec fn path_parent(p: Seq<char>) -> Option<Seq<char>>;

/// The last component of path `p` as `std::path::Path::file_name` gives
/// it, under the path rules of the target the library is built for.
pub uninterp spec fn path_file_name(p: Seq<char>) -> Option<Seq<char>>;

/// The characters of an optional string.
pub open spec fn opt_chars(r: Option<String>) -> Option<Seq<char>> {
    match r {
        Some(s) => Some(s@),
        None => None,
    }
}

/// `std::path::Path::parent` on `p`: the path without its last component,
/// or `None` when it ends in a root or prefix or is empty. The contract only ties the
/// result to `p` through the name [`path_parent`]; what the parent is
/// is not stated.
#[verifier::external_body]
fn parent_of(p: &str) -> (r: Option<String>)
    ensures
        opt_chars(r) == path_parent(p@),
{
    match std::path::Path::new(p).parent() {
        Some(q) => Some(q.to_string_lossy().into_owned()),
        None => None,
    }
}

/// `std::path::Path::file_name` on `p`: the last component, or `None` when
/// the path ends in `..` or is a root. The contract only ties the result
/// to `p` through the name [`path_file_name`]; which component it is is
/// not stated.
#[verifier::external_body]
fn file_name_of(p: &str) -> (r: Option<String>)
    ensures
        opt_chars(r) == path_file_name(p@),
{
    match std::path::Path::new(p).file_name() {
        Some(f) => Some(f.to_string_lossy().into_owned()),
        None => None,
    }
}

/// One step of the upward walk for a git root: ask about another
/// directory, or stop with the result.
#[derive(Debug)]
pub enum GitRootStep {
    /// Look for `.git` in this directory next.
    Ask(String),
    /// The walk is over: the root directory's name, or `None`.
    Done(Option<String>),
}

/// Where the upward walk for a git root starts: the parent of `path` when
/// it names a file or nothing on disk (`None` when it has no parent), else
/// `path` itself.
pub fn git_root_start(path: &str, is_file: bool, exists: bool) -> (r: Option<String>)
    ensures
        is_file || !exists ==> opt_chars(r) == path_parent(path@),
        !is_file && exists ==> opt_chars(r) == Some(path@),
{
    if is_file || !exists {
        parent_of(path)
    } else {
        Some(String::from_str(path))
    }
}

/// One step of the upward walk from directory `current`: when it holds
/// `.git` (`has_git`) the walk ends with its name; otherwise it goes on to
/// the parent, and ends with `None` when there is none.
pub fn git_root_step(current: &str, has_git: bool) -> (r: GitRootStep)
    ensures
        has_git ==> (r matches GitRootStep::Done(name) && opt_chars(name) == path_file_name(
            current@,
        )),
        !has_git ==> match path_parent(current@) {
            Some(p) => r matches GitRootStep::Ask(q) && q@ == p,
            None => r matches GitRootStep::Done(None),
        },
{
    if has_git {
        GitRootStep::Done(file_name_of(current))
    } else {
        match parent_of(current) {
            Some(p) => GitRootStep::Ask(p),
            None => GitRootStep::Done(None),
        }
    }
}

} // verus!
