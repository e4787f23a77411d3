//! Resolution of configured paths against the file that names them.
//!
//! Joining and splitting paths is left to `std::path`, whose results are
//! named here by uninterpreted functions of the path's text: what counts
//! as a separator and as a root is fixed when the gateway is built.

use std::path::Path;
use vstd::prelude::*;
use vstd::string::StringExecFns;

use crate::util::text::{chars_of, string_of, string_of_range};

verus! {

/// The text of `Path::parent`: the path without its final component.
/// `None` for an empty path and for one that ends in a root.
pub uninterp spec fn path_parent(path: Seq<char>) -> Option<Seq<char>>;

/// The text of `Path::join`: `path` adjoined to `base`, or `path` itself if
/// it is absolute.
pub uninterp spec fn path_join(base: Seq<char>, path: Seq<char>) -> Seq<char>;

/// The value of `Path::is_relative`.
pub uninterp spec fn path_is_relative(path: Seq<char>) -> bool;

/// Calls `Path::parent` on the path with the given text, and hands back
/// the text of the parent, if there is one.
#[verifier::external_body]
fn parent_of(path: &str) -> (r: Option<String>)
    ensures
        match path_parent(path@) {
            Some(p) => r matches Some(s) && s@ == p,
            None => r is None,
        },
{
    match Path::new(path).parent() {
        Some(p) => Some(p.to_string_lossy().into_owned()),
        None => None,
    }
}

/// Calls `Path::join` on the paths with the given texts, and hands back
/// the text of the joined path.
#[verifier::external_body]
fn join(base: &str, path: &str) -> (r: String)
    ensures
        r@ == path_join(base@, path@),
{
    Path::new(base).join(Path::new(path)).to_string_lossy().into_owned()
}

/// Calls `Path::is_relative` on the path with the given text, and hands
/// back its answer.
#[verifier::external_body]
fn is_relative(path: &str) -> (r: bool)
    ensures
        r == path_is_relative(path@),
{
    Path::new(path).is_relative()
}

/// The directory against which paths named in `base` are resolved: `base`
/// without its final `/` if it has one, else the parent of `base`.
pub open spec fn base_dir(base: Seq<char>) -> Option<Seq<char>> {
    if base.len() > 0 && base.last() == '/' {
        Some(base.drop_last())
    } else {
        path_parent(base)
    }
}

/// `path` as seen from the directory `dir`: a relative path is adjoined to
/// it, any other stands for itself.
pub open spec fn resolved_in(dir: Seq<char>, path: Seq<char>) -> Seq<char> {
    if path_is_relative(path) {
        path_join(dir, path)
    } else {
        path
    }
}

/// How many `/` a path begins with.
pub open spec fn leading_slashes(path: Seq<char>) -> nat
    decreases path.len(),
{
    if path.len() > 0 && path[0] == '/' {
        1 + leading_slashes(path.skip(1))
    } else {
        0
    }
}

/// A path without the `/` it begins with, however many there are.
pub open spec fn without_leading_slashes(path: Seq<char>) -> Seq<char> {
    path.skip(leading_slashes(path) as int)
}

/// The text of a directory as the beginning of the paths below it: it
/// ends in `/`, unless it is empty and so stands for the current directory.
pub open spec fn as_directory(dir: Seq<char>) -> Seq<char> {
    if dir.len() == 0 || dir.last() == '/' {
        dir
    } else {
        dir.push('/')
    }
}

/// The directory below which the request paths of `base` lie, as the text
/// that all of them begin with: `base` itself if it ends in `/`, else the
/// parent of `base`.
pub open spec fn uri_root(base: Seq<char>) -> Option<Seq<char>> {
    if base.len() > 0 && base.last() == '/' {
        Some(base)
    } else {
        match path_parent(base) {
            Some(parent) => Some(as_directory(parent)),
            None => None,
        }
    }
}

/// The file that a request path names below the directory `root`: the
/// path, without the `/` it begins with, put after `root`. Whatever the
/// path, the result begins with `root`.
pub open spec fn resolved_uri(root: Seq<char>, path: Seq<char>) -> Seq<char> {
    root + without_leading_slashes(path)
}

/// A path that begins with exactly `k` times `/` has `k` leading slashes.
pub proof fn lemma_leading_slashes(path: Seq<char>, k: int)
    requires
        0 <= k <= path.len(),
        forall|i: int| 0 <= i < k ==> path[i] == '/',
        k == path.len() || path[k] != '/',
    ensures
        leading_slashes(path) == k,
    decreases k,
{
    if k > 0 {
        let rest = path.skip(1);
        assert forall|i: int| 0 <= i < k - 1 implies rest[i] == '/' by {
            assert(rest[i] == path[i + 1]);
        }
        assert(path[0] == '/');
        lemma_leading_slashes(rest, k - 1);
    }
}

/// What is left of a path without its leading slashes does not begin with
/// `/`, and the slashes taken off are no more than the path has characters.
pub proof fn lemma_without_leading_slashes(path: Seq<char>)
    ensures
        leading_slashes(path) <= path.len(),
        without_leading_slashes(path).len() == 0 || without_leading_slashes(path)[0] != '/',
    decreases path.len(),
{
    if path.len() > 0 && path[0] == '/' {
        let rest = path.skip(1);
        lemma_without_leading_slashes(rest);
        assert(rest.skip(leading_slashes(rest) as int) =~= path.skip(
            leading_slashes(path) as int,
        ));
    }
}

/// The directory against which paths named in `base` are resolved, if
/// `base` has one.
pub fn base_directory(base: &str) -> (r: Option<String>)
    ensures
        match base_dir(base@) {
            Some(d) => r matches Some(s) && s@ == d,
            None => r is None,
        },
{
    let chars = chars_of(base);
    let n = chars.len();
    if n > 0 && chars[n - 1] == '/' {
        let dir = string_of_range(&chars, 0, n - 1);
        assert(chars@.subrange(0, n - 1) =~= base@.drop_last());
        Some(dir)
    } else {
        parent_of(base)
    }
}

fn resolve_in(dir: &str, path: &str) -> (r: String)
    ensures
        r@ == resolved_in(dir@, path@),
{
    if is_relative(path) {
        join(dir, path)
    } else {
        path.to_owned()
    }
}

/// The directory below which the request paths of `base` lie, if `base`
/// has one.
pub fn uri_directory(base: &str) -> (r: Option<String>)
    ensures
        match uri_root(base@) {
            Some(root) => r matches Some(s) && s@ == root,
            None => r is None,
        },
{
    let chars = chars_of(base);
    let n = chars.len();
    if n > 0 && chars[n - 1] == '/' {
        Some(base.to_owned())
    } else {
        match parent_of(base) {
            None => None,
            Some(mut parent) => {
                let last = chars_of(parent.as_str());
                if !(last.len() == 0 || last[last.len() - 1] == '/') {
                    parent.push('/');
                }
                Some(parent)
            },
        }
    }
}

/// The characters of a path without the `/` it begins with.
pub fn strip_leading_slashes(path: &Vec<char>) -> (r: Vec<char>)
    ensures
        r@ == without_leading_slashes(path@),
{
    let mut k: usize = 0;
    while k < path.len() && path[k] == '/'
        invariant
            k <= path.len(),
            forall|i: int| 0 <= i < k ==> path@[i] == '/',
        decreases path.len() - k,
    {
        k += 1;
    }
    proof {
        lemma_leading_slashes(path@, k as int);
    }
    let mut rest: Vec<char> = Vec::new();
    let mut i: usize = k;
    assert(path@.subrange(k as int, k as int) =~= Seq::<char>::empty());
    while i < path.len()
        invariant
            k <= i <= path.len(),
            rest@ == path@.subrange(k as int, i as int),
        decreases path.len() - i,
    {
        rest.push(path[i]);
        assert(path@.subrange(k as int, i + 1) =~= path@.subrange(k as int, i as int).push(
            path@[i as int],
        ));
        i += 1;
    }
    assert(path@.subrange(k as int, path@.len() as int) =~= path@.skip(k as int));
    rest
}

fn resolve_uri_below(root: String, path: &str) -> (r: String)
    ensures
        r@ == resolved_uri(root@, path@),
        root@.is_prefix_of(r@),
{
    let rest = string_of(&strip_leading_slashes(&chars_of(path)));
    let r = root.concat(rest.as_str());
    assert(r@.subrange(0, root@.len() as int) =~= root@);
    r
}

/// Resolves `path` against the file or directory `base`.
pub fn resolve(base: &str, path: &str) -> (r: String)
    requires
        base_dir(base@) is Some,
    ensures
        r@ == resolved_in(base_dir(base@).unwrap(), path@),
{
    match base_directory(base) {
        Some(dir) => resolve_in(dir.as_str(), path),
        None => String::new(),
    }
}

/// The file that the request path `path` names below the directory of
/// `base`. The `/` that the path begins with are taken off, so that the
/// result begins with that directory whatever the path is.
pub fn resolve_uri(base: &str, path: &str) -> (r: String)
    requires
        uri_root(base@) is Some,
    ensures
        r@ == resolved_uri(uri_root(base@).unwrap(), path@),
        uri_root(base@).unwrap().is_prefix_of(r@),
{
    match uri_directory(base) {
        Some(root) => resolve_uri_below(root, path),
        None => String::new(),
    }
}

/// [`resolve`], for any `base`: `None` if `base` has no directory to
/// resolve against.
pub fn try_resolve(base: &str, path: &str) -> (r: Option<String>)
    ensures
        match base_dir(base@) {
            Some(d) => r matches Some(s) && s@ == resolved_in(d, path@),
            None => r is None,
        },
{
    match base_directory(base) {
        Some(_) => Some(resolve(base, path)),
        None => None,
    }
}

/// [`resolve_uri`], for any `base`: `None` if `base` has no directory to
/// resolve against.
pub fn try_resolve_uri(base: &str, path: &str) -> (r: Option<String>)
    ensures
        match uri_root(base@) {
            Some(root) => r matches Some(s) && s@ == resolved_uri(root, path@) && root.is_prefix_of(
                s@,
            ),
            None => r is None,
        },
{
    match uri_directory(base) {
        Some(_) => Some(resolve_uri(base, path)),
        None => None,
    }
}

} // verus!
