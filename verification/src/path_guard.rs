//! Confinement of served files to the document root.
//!
//! The guard judges paths that the file system has already resolved: absolute,
//! with every symbolic link followed and every `.` and `..` worked out. It
//! compares them component by component, so `/srv/www-private` is not inside
//! `/srv/www`, and a request that climbs out of the root with `..` resolves to
//! a path that the guard refuses.

use crate::segments::{split, split_text, texts, SLASH};
use vstd::prelude::*;

verus! {

/// The parts without the empty ones.
pub open spec fn without_empty(parts: Seq<Seq<char>>) -> Seq<Seq<char>>
    decreases parts.len(),
{
    if parts.len() == 0 {
        parts
    } else if parts.last().len() > 0 {
        without_empty(parts.drop_last()).push(parts.last())
    } else {
        without_empty(parts.drop_last())
    }
}

/// The components of a path: the non-empty parts between its slashes.
pub open spec fn components(path: Seq<char>) -> Seq<Seq<char>> {
    without_empty(split(path, SLASH))
}

/// The path starts at the root of the file system.
pub open spec fn is_absolute(path: Seq<char>) -> bool {
    path.len() > 0 && path[0] == SLASH
}

/// `path` is `root` or lies under it: both are absolute, and the components
/// of `root` are the first components of `path`.
pub open spec fn is_within(root: Seq<char>, path: Seq<char>) -> bool {
    &&& is_absolute(root)
    &&& is_absolute(path)
    &&& components(root).is_prefix_of(components(path))
}

/// The requested resource does not exist under the document root.
#[derive(Debug, PartialEq, Eq)]
pub struct NotFound;

/// The components of a path: see [`components`].
pub fn path_components(path: &str) -> (kept: Vec<String>)
    ensures
        texts(kept@) == components(path@),
{
    let mut parts = split_text(path, SLASH);
    let ghost all = texts(parts@);
    let n = parts.len();
    let mut kept: Vec<String> = Vec::new();
    let mut i: usize = 0;
    assert(all.take(0) =~= Seq::<Seq<char>>::empty());
    while i < n
        invariant
            i <= n == parts.len(),
            all.len() == n,
            forall|j: int| i <= j < n ==> parts@[j]@ == all[j],
            texts(kept@) == without_empty(all.take(i as int)),
        decreases n - i,
    {
        let mut part = String::new();
        core::mem::swap(&mut parts[i], &mut part);
        proof {
            assert(all.take(i + 1).drop_last() =~= all.take(i as int));
            assert(texts(kept@.push(part)) =~= texts(kept@).push(part@));
        }
        if !part.as_str().is_empty() {
            kept.push(part);
        }
        i += 1;
    }
    assert(all.take(n as int) =~= all);
    kept
}

/// Whether the path starts with a slash.
fn starts_at_root(path: &str) -> (absolute: bool)
    ensures
        absolute == is_absolute(path@),
{
    !path.is_empty() && path.get_char(0) == SLASH
}

/// Whether a resolved path exists within the document root.
///
/// `resolved` is what resolving the requested file gave: `None` when it does
/// not exist or cannot be resolved. `canonical_root` is the resolved document
/// root.
pub fn exists_within(canonical_root: &str, resolved: Option<&str>) -> (within: bool)
    ensures
        within == (resolved matches Some(path) && is_within(canonical_root@, path@)),
{
    let path = match resolved {
        Some(path) => path,
        None => {
            return false;
        },
    };
    if !starts_at_root(canonical_root) || !starts_at_root(path) {
        return false;
    }
    let root_parts = path_components(canonical_root);
    let path_parts = path_components(path);
    if root_parts.len() > path_parts.len() {
        return false;
    }
    let ghost root_all = components(canonical_root@);
    let ghost path_all = components(path@);
    let mut i: usize = 0;
    while i < root_parts.len()
        invariant
            i <= root_parts.len() <= path_parts.len(),
            resolved == Some(path),
            is_absolute(canonical_root@),
            is_absolute(path@),
            root_all == components(canonical_root@),
            path_all == components(path@),
            texts(root_parts@) == root_all,
            texts(path_parts@) == path_all,
            forall|j: int| 0 <= j < i ==> root_all[j] == path_all[j],
        decreases root_parts.len() - i,
    {
        assert(root_all[i as int] == root_parts@[i as int]@);
        assert(path_all[i as int] == path_parts@[i as int]@);
        if !(root_parts[i] == path_parts[i]) {
            proof {
                let front = path_all.subrange(0, root_all.len() as int);
                assert(front[i as int] == path_all[i as int]);
                assert(front != root_all);
            }
            return false;
        }
        i += 1;
    }
    assert(root_all =~= path_all.subrange(0, root_all.len() as int));
    true
}

/// Resolves a request against the document root: the resolved path if it
/// exists within the root, and `NotFound` in every other case.
pub fn resolve(canonical_root: &str, resolved: Option<String>) -> (outcome: Result<
    String,
    NotFound,
>)
    ensures
        match outcome {
            Ok(path) => resolved == Some(path) && is_within(canonical_root@, path@),
            Err(_) => !(resolved matches Some(path) && is_within(canonical_root@, path@)),
        },
{
    match resolved {
        Some(path) => {
            if exists_within(canonical_root, Some(path.as_str())) {
                Ok(path)
            } else {
                Err(NotFound)
            }
        },
        None => Err(NotFound),
    }
}

} // verus!
