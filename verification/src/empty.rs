//! Emptying the trash.
//!
//! Everything below `files/` and `info/` of every trash directory goes, and
//! the size cache with it; the trash directories themselves stay. A removal
//! that fails does not stop the others: the failures are counted, and the
//! summary says whether there were any.

use vstd::prelude::*;
use crate::bytes::{ascii, literal};
use crate::layout::{cache_file, cache_file_of, files_dir, files_dir_of, info_dir, info_dir_of};
use crate::lines::{holds, views};
use crate::resolver::distinct;

verus! {

/// What is to be emptied of one trash directory.
#[derive(Debug, Clone, PartialEq, Eq)]
pub struct EmptyTargets {
    /// The directory whose entries go, each with all that it holds.
    pub files_dir: Vec<u8>,
    /// The directory whose entries go.
    pub info_dir: Vec<u8>,
    /// The size cache, which goes too.
    pub cache_file: Vec<u8>,
}

/// What an `EmptyTargets` stands for.
pub struct Targets {
    pub files_dir: Seq<u8>,
    pub info_dir: Seq<u8>,
    pub cache_file: Seq<u8>,
}

impl View for EmptyTargets {
    type V = Targets;

    open spec fn view(&self) -> Targets {
        Targets {
            files_dir: self.files_dir@,
            info_dir: self.info_dir@,
            cache_file: self.cache_file@,
        }
    }
}

/// What is to be emptied of the trash directory `trash`.
pub open spec fn targets_of(trash: Seq<u8>) -> Targets {
    Targets {
        files_dir: files_dir_of(trash),
        info_dir: info_dir_of(trash),
        cache_file: cache_file_of(trash),
    }
}

/// What is to be emptied of the trash directories `trash_paths`: each
/// directory once, in the order in which they first occur.
pub open spec fn all_targets(trash_paths: Seq<Seq<u8>>) -> Seq<Targets> {
    Seq::new(distinct(trash_paths).len(), |i: int| targets_of(distinct(trash_paths)[i]))
}

/// What is to be emptied of the trash directories `trash_paths`.
pub fn empty_targets(trash_paths: &Vec<Vec<u8>>) -> (out: Vec<EmptyTargets>)
    ensures
        out@.len() == all_targets(views(trash_paths@)).len(),
        forall|i: int| 0 <= i < out@.len() ==> (#[trigger] out@[i])@ == all_targets(views(trash_paths@))[i],
{
    let mut seen: Vec<Vec<u8>> = Vec::new();
    let mut out: Vec<EmptyTargets> = Vec::new();
    let mut i: usize = 0;
    assert(views(trash_paths@).take(0).len() == 0);
    assert(views(seen@) =~= Seq::<Seq<u8>>::empty());
    while i < trash_paths.len()
        invariant
            i <= trash_paths@.len(),
            views(seen@) == distinct(views(trash_paths@).take(i as int)),
            out@.len() == seen@.len(),
            forall|k: int| 0 <= k < out@.len() ==> (#[trigger] out@[k])@ == targets_of(seen@[k]@),
        decreases trash_paths@.len() - i,
    {
        let ghost shown = views(trash_paths@).take(i + 1);
        let ghost before = views(seen@);
        assert(shown.drop_last() == views(trash_paths@).take(i as int));
        assert(shown.last() == trash_paths@[i as int]@);
        let trash = trash_paths[i].as_slice();
        if !holds(&seen, trash) {
            out.push(
                EmptyTargets {
                    files_dir: files_dir(trash),
                    info_dir: info_dir(trash),
                    cache_file: cache_file(trash),
                },
            );
            seen.push(crate::bytes::copy_range(trash, 0, trash.len()));
            assert(trash@.subrange(0, trash@.len() as int) == trash@);
            assert(views(seen@) =~= before.push(trash@));
        }
        i += 1;
    }
    assert(views(trash_paths@).take(i as int) == views(trash_paths@));
    assert forall|k: int| 0 <= k < out@.len() implies (#[trigger] out@[k])@ == all_targets(
        views(trash_paths@),
    )[k] by {
        assert(views(seen@)[k] == seen@[k]@);
    }
    out
}

/// How an entry is removed.
#[derive(Debug, Clone, Copy, PartialEq, Eq, Structural)]
pub enum Removal {
    /// With all that it holds.
    Tree,
    /// As one file.
    File,
}

/// How an entry of `files/` or `info/` is removed: a directory with all that
/// it holds, anything else as one file.
pub fn removal_of(is_dir: bool) -> (removal: Removal)
    ensures
        removal == if is_dir {
            Removal::Tree
        } else {
            Removal::File
        },
{
    if is_dir {
        Removal::Tree
    } else {
        Removal::File
    }
}

/// How emptying went, and what is to be said of it.
#[derive(Debug, Clone, PartialEq, Eq)]
pub struct EmptySummary {
    /// How many removals failed.
    pub failed: usize,
    /// The warning for the error stream, where a removal failed.
    pub warning: Option<Vec<u8>>,
    /// The message for the output, where all went well or much is to be said.
    pub message: Option<Vec<u8>>,
}

/// What is said where a removal failed.
pub open spec fn warning_text() -> Seq<u8> {
    ascii("Warning: Some items could not be removed from trash"@)
}

/// What is said where the trash was emptied.
pub open spec fn emptied_text() -> Seq<u8> {
    ascii("Trash emptied"@)
}

/// How many of `outcomes` are failures.
pub open spec fn failures(outcomes: Seq<bool>) -> nat
    decreases outcomes.len(),
{
    if outcomes.len() == 0 {
        0
    } else if outcomes.last() {
        failures(outcomes.drop_last())
    } else {
        failures(outcomes.drop_last()) + 1
    }
}

/// The summary of emptying the trash, where `outcomes` says of each removal
/// whether it succeeded. Failures are counted; with one or more there is a
/// warning. That the trash was emptied is said where nothing failed, and
/// with `verbose` in any case.
pub fn empty_trash(outcomes: &[bool], verbose: bool) -> (summary: EmptySummary)
    ensures
        summary.failed == failures(outcomes@),
        match summary.warning {
            Some(text) => failures(outcomes@) > 0 && text@ == warning_text(),
            None => failures(outcomes@) == 0,
        },
        match summary.message {
            Some(text) => (verbose || failures(outcomes@) == 0) && text@ == emptied_text(),
            None => !verbose && failures(outcomes@) > 0,
        },
{
    let mut failed: usize = 0;
    let mut i: usize = 0;
    assert(outcomes@.take(0).len() == 0);
    while i < outcomes.len()
        invariant
            i <= outcomes@.len(),
            failed == failures(outcomes@.take(i as int)),
            failed <= i,
        decreases outcomes@.len() - i,
    {
        let ghost shown = outcomes@.take(i + 1);
        assert(shown.drop_last() == outcomes@.take(i as int));
        assert(shown.last() == outcomes@[i as int]);
        if !outcomes[i] {
            failed += 1;
        }
        i += 1;
    }
    assert(outcomes@.take(i as int) == outcomes@);
    proof {
        reveal_strlit("Warning: Some items could not be removed from trash");
        reveal_strlit("Trash emptied");
    }
    let warning = if failed > 0 {
        Some(
            vstd::slice::slice_to_vec(
                literal("Warning: Some items could not be removed from trash"),
            ),
        )
    } else {
        None
    };
    let message = if verbose || failed == 0 {
        Some(vstd::slice::slice_to_vec(literal("Trash emptied")))
    } else {
        None
    };
    EmptySummary { failed, warning, message }
}

} // verus!
