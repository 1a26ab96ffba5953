//! The paths that a run is asked to trash.
//!
//! Every path is looked at before any is moved: a run in which one of them is
//! missing or cannot be resolved moves nothing.

use vstd::prelude::*;
use crate::bytes::copy_range;
use crate::errors::TrashError;
use crate::macos::{can_quote, QUOTE};

verus! {

/// What was found of one path that was given.
#[derive(Debug, Clone, PartialEq, Eq)]
pub struct PathCheck {
    /// Whether it exists.
    pub exists: bool,
    /// Its absolute form with links and relative parts resolved, where that
    /// could be had.
    pub canonical: Option<Vec<u8>>,
}

/// What a `PathCheck` stands for.
pub struct Checked {
    pub exists: bool,
    pub canonical: Option<Seq<u8>>,
}

impl View for PathCheck {
    type V = Checked;

    open spec fn view(&self) -> Checked {
        Checked {
            exists: self.exists,
            canonical: match self.canonical {
                Some(path) => Some(path@),
                None => None,
            },
        }
    }
}

/// What a list of checks stands for.
pub open spec fn checks_of(list: Seq<PathCheck>) -> Seq<Checked> {
    Seq::new(list.len(), |i: int| list[i]@)
}

/// The path to move for one that was given, or why it cannot be moved: it
/// does not exist, it could not be resolved, or it holds a double quote
/// where paths are quoted.
pub open spec fn accepted(check: Checked, quoted: bool) -> Result<Seq<u8>, TrashError> {
    if !check.exists {
        Err(TrashError::PathNotFound)
    } else {
        match check.canonical {
            None => Err(TrashError::PathResolutionError),
            Some(path) => if quoted && path.contains(QUOTE) {
                Err(TrashError::PathResolutionError)
            } else {
                Ok(path)
            },
        }
    }
}

/// Whether the path at `at` is the first that cannot be moved.
pub open spec fn is_first_refusal(checks: Seq<Checked>, quoted: bool, at: int) -> bool {
    &&& 0 <= at < checks.len()
    &&& accepted(checks[at], quoted) is Err
    &&& forall|i: int| 0 <= i < at ==> accepted(#[trigger] checks[i], quoted) is Ok
}

/// The paths to move, in the order in which they were given; or, where one
/// of them cannot be moved, the place of the first such and the reason.
/// `quoted` says whether the platform puts paths between double quotes.
pub fn move_files_to_trash(checks: &Vec<PathCheck>, quoted: bool) -> (out: Result<
    Vec<Vec<u8>>,
    (usize, TrashError),
>)
    ensures
        match out {
            Ok(paths) => paths@.len() == checks@.len() && forall|i: int|
                0 <= i < checks@.len() ==> accepted(#[trigger] checks_of(checks@)[i], quoted) == Ok::<
                    Seq<u8>,
                    TrashError,
                >(paths@[i]@),
            Err((at, error)) => is_first_refusal(checks_of(checks@), quoted, at as int) && accepted(
                checks_of(checks@)[at as int],
                quoted,
            ) == Err::<Seq<u8>, TrashError>(error),
        },
{
    let mut paths: Vec<Vec<u8>> = Vec::new();
    let mut i: usize = 0;
    while i < checks.len()
        invariant
            i <= checks@.len(),
            paths@.len() == i,
            forall|k: int|
                0 <= k < i ==> accepted(#[trigger] checks_of(checks@)[k], quoted) == Ok::<
                    Seq<u8>,
                    TrashError,
                >(paths@[k]@),
        decreases checks@.len() - i,
    {
        let check = &checks[i];
        assert(checks_of(checks@)[i as int] == check@);
        if !check.exists {
            return Err((i, TrashError::PathNotFound));
        }
        match &check.canonical {
            None => {
                return Err((i, TrashError::PathResolutionError));
            },
            Some(path) => {
                if quoted && !can_quote(path.as_slice()) {
                    return Err((i, TrashError::PathResolutionError));
                }
                assert(path@.subrange(0, path@.len() as int) == path@);
                paths.push(copy_range(path.as_slice(), 0, path.len()));
            },
        }
        i += 1;
    }
    Ok(paths)
}

/// The platforms whose trash the program knows.
#[derive(Debug, Clone, Copy, PartialEq, Eq, Structural)]
pub enum Platform {
    Linux,
    MacOs,
}

/// The platform that the system calls `os`: `linux` and `macos` are known.
pub open spec fn platform_of(os: Seq<u8>) -> Result<Platform, TrashError> {
    if os == crate::bytes::ascii("linux"@) {
        Ok(Platform::Linux)
    } else if os == crate::bytes::ascii("macos"@) {
        Ok(Platform::MacOs)
    } else {
        Err(TrashError::UnsupportedPlatform)
    }
}

/// The platform that the system calls `os`.
pub fn platform(os: &[u8]) -> (out: Result<Platform, TrashError>)
    ensures
        out == platform_of(os@),
{
    proof {
        reveal_strlit("linux");
        reveal_strlit("macos");
    }
    if crate::bytes::equal(os, crate::bytes::literal("linux")) {
        Ok(Platform::Linux)
    } else if crate::bytes::equal(os, crate::bytes::literal("macos")) {
        Ok(Platform::MacOs)
    } else {
        Err(TrashError::UnsupportedPlatform)
    }
}

} // verus!
