//! Paths as byte strings.
//!
//! The paths that reach the library are absolute and come from the system in
//! their shortest form: no empty, `.` or `..` component and no separator at
//! the end. The functions here read a path as text; on paths in that form
//! they give what the system's own path handling gives.

use vstd::prelude::*;
use crate::bytes::{append, copy_range, find_last, last_index, starts_with, SLASH};

verus! {

/// Whether a path starts at the root.
pub open spec fn is_absolute(path: Seq<u8>) -> bool {
    path.len() > 0 && path[0] == SLASH
}

/// `base` made ready to take a name after it: with a separator at its end,
/// unless it is empty.
pub open spec fn stem(base: Seq<u8>) -> Seq<u8> {
    if base.len() == 0 || base.last() == SLASH {
        base
    } else {
        base.push(SLASH)
    }
}

/// The path of `name` under `base`. An absolute `name` stands for itself.
pub open spec fn joined(base: Seq<u8>, name: Seq<u8>) -> Seq<u8> {
    if is_absolute(name) {
        name
    } else {
        stem(base) + name
    }
}

/// The path of `name` under `base`.
pub fn join(base: &[u8], name: &[u8]) -> (out: Vec<u8>)
    ensures
        out@ == joined(base@, name@),
{
    let mut out: Vec<u8> = Vec::new();
    if name.len() > 0 && name[0] == SLASH {
        append(&mut out, name);
        return out;
    }
    append(&mut out, base);
    if base.len() > 0 && base[base.len() - 1] != SLASH {
        out.push(SLASH);
    }
    append(&mut out, name);
    out
}

/// The directory that holds the last component of `path`: the root for a
/// component just below it, nothing for the root itself and for the empty
/// path, and the empty path for a single relative component.
pub open spec fn parent_of(path: Seq<u8>) -> Option<Seq<u8>> {
    if path.len() == 0 || path == seq![SLASH] {
        None
    } else if !path.contains(SLASH) {
        Some(Seq::empty())
    } else {
        let at = last_index(path, SLASH);
        if at == 0 {
            Some(seq![SLASH])
        } else {
            Some(path.take(at))
        }
    }
}

/// The directory that holds the last component of `path`.
pub fn parent(path: &[u8]) -> (out: Option<Vec<u8>>)
    ensures
        match out {
            Some(dir) => parent_of(path@) == Some(dir@),
            None => parent_of(path@) is None,
        },
{
    if path.len() == 0 {
        return None;
    }
    match find_last(path, SLASH) {
        None => {
            assert(path@ != seq![SLASH]) by {
                if path@ == seq![SLASH] {
                    assert(path@[0] == SLASH);
                }
            }
            Some(Vec::new())
        },
        Some(at) => {
            if at == 0 {
                if path.len() == 1 {
                    assert(path@ == seq![SLASH]);
                    None
                } else {
                    assert(path@ != seq![SLASH]);
                    let mut root: Vec<u8> = Vec::new();
                    root.push(SLASH);
                    Some(root)
                }
            } else {
                assert(path@ != seq![SLASH]);
                Some(copy_range(path, 0, at))
            }
        },
    }
}

/// The directory that holds `path`, or the root where it has none.
pub open spec fn parent_or_root(path: Seq<u8>) -> Seq<u8> {
    match parent_of(path) {
        Some(dir) => dir,
        None => seq![SLASH],
    }
}

/// The directory that holds `path`, or the root where it has none.
pub fn parent_or_root_of(path: &[u8]) -> (out: Vec<u8>)
    ensures
        out@ == parent_or_root(path@),
{
    match parent(path) {
        Some(dir) => dir,
        None => {
            let mut root: Vec<u8> = Vec::new();
            root.push(SLASH);
            root
        },
    }
}

/// What follows the last separator of `path`, or all of it where it has
/// none.
pub open spec fn last_component(path: Seq<u8>) -> Seq<u8> {
    if path.contains(SLASH) {
        path.skip(last_index(path, SLASH) + 1)
    } else {
        path
    }
}

/// Whether a component names an entry of a directory: it is not empty and
/// is neither `.` nor `..`.
pub open spec fn is_entry_name(name: Seq<u8>) -> bool {
    name.len() > 0 && name != seq![46u8] && name != seq![46u8, 46u8]
}

/// The name of the entry that `path` leads to, where its last component is
/// one.
pub open spec fn file_name_of(path: Seq<u8>) -> Option<Seq<u8>> {
    if is_entry_name(last_component(path)) {
        Some(last_component(path))
    } else {
        None
    }
}

/// The name of the entry that `path` leads to.
pub fn file_name(path: &[u8]) -> (out: Option<Vec<u8>>)
    ensures
        match out {
            Some(name) => file_name_of(path@) == Some(name@),
            None => file_name_of(path@) is None,
        },
{
    let start: usize = match find_last(path, SLASH) {
        None => 0,
        Some(at) => {
            assert(at < path.len());
            at + 1
        },
    };
    let name = copy_range(path, start, path.len());
    assert(name@ == last_component(path@)) by {
        if start == 0 {
            assert(path@.subrange(0, path@.len() as int) == path@);
        }
    }
    let dots = name.len() <= 2 && (name.len() == 0 || name[0] == 46) && (name.len() <= 1 || name[1]
        == 46);
    if dots {
        proof {
            if name@.len() == 1 {
                assert(name@ == seq![46u8]);
            }
            if name@.len() == 2 {
                assert(name@ == seq![46u8, 46u8]);
            }
        }
        None
    } else {
        proof {
            if name@ == seq![46u8] {
                assert(name@.len() == 1 && name@[0] == 46);
            }
            if name@ == seq![46u8, 46u8] {
                assert(name@.len() == 2 && name@[0] == 46 && name@[1] == 46);
            }
        }
        Some(name)
    }
}

/// The name of an entry holds no separator.
pub proof fn lemma_file_name_is_a_name(path: Seq<u8>)
    ensures
        !last_component(path).contains(SLASH),
{
    let name = last_component(path);
    if name.contains(SLASH) {
        let i = choose|i: int| 0 <= i < name.len() && name[i] == SLASH;
        if path.contains(SLASH) {
            crate::bytes::lemma_last_index_exists(path, SLASH);
            let at = last_index(path, SLASH);
            assert(name[i] == path[at + 1 + i]);
        } else {
            assert(path[i] == SLASH);
        }
    }
}

/// `path` as seen from `base`: what `path` holds after `base` and one
/// separator, where that is not empty and is no absolute path itself.
pub open spec fn relative_to(path: Seq<u8>, base: Seq<u8>) -> Option<Seq<u8>> {
    let from = stem(base).len() as int;
    if stem(base).is_prefix_of(path) && path.len() > from && path[from] != SLASH {
        Some(path.skip(from))
    } else {
        None
    }
}

/// `path` as seen from `base`.
pub fn strip_base(path: &[u8], base: &[u8]) -> (out: Option<Vec<u8>>)
    ensures
        match out {
            Some(rest) => relative_to(path@, base@) == Some(rest@),
            None => relative_to(path@, base@) is None,
        },
{
    let mut prefix: Vec<u8> = Vec::new();
    append(&mut prefix, base);
    if base.len() > 0 && base[base.len() - 1] != SLASH {
        prefix.push(SLASH);
    }
    assert(prefix@ == stem(base@));
    let from = prefix.len();
    if starts_with(path, prefix.as_slice()) && path.len() > from && path[from] != SLASH {
        Some(copy_range(path, from, path.len()))
    } else {
        None
    }
}

/// Joining gives back the path that a relative form was taken from.
pub proof fn lemma_relative_joins_back(path: Seq<u8>, base: Seq<u8>)
    requires
        relative_to(path, base) is Some,
    ensures
        !is_absolute(relative_to(path, base)->0),
        relative_to(path, base)->0.len() > 0,
        joined(base, relative_to(path, base)->0) == path,
{
    let from = stem(base).len() as int;
    let rest = path.skip(from);
    assert(rest[0] == path[from]);
    assert(path.subrange(0, from) + rest == path);
}

} // verus!
