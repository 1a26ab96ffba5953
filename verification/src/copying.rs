//! Copying an item into the trash, where renaming cannot bring it there.
//!
//! The caller looks at the item first and then copies it step by step. A
//! directory is made before anything is copied into it, and what it holds
//! follows at once, entry by entry, before the next entry of the directory
//! above. Each step gives its copy the mode and the times of its source.

use vstd::prelude::*;
use crate::bytes::{append, copy_range, SLASH};
use crate::paths::stem;
use crate::tree::{Tree, TreeEntry};

verus! {

/// What a step does.
#[derive(Debug, Clone, Copy, PartialEq, Eq, Structural)]
pub enum CopyKind {
    /// Make the directory `to`, and those above it that are missing.
    MakeDirectory,
    /// Copy the file `from` to `to`.
    CopyFile,
}

/// One step of a copy. After what its kind says, `to` gets the mode, the
/// modification time and the access time of `from`.
#[derive(Debug, Clone, PartialEq, Eq)]
pub struct CopyStep {
    pub kind: CopyKind,
    pub from: Vec<u8>,
    pub to: Vec<u8>,
}

/// What a `CopyStep` stands for.
pub struct Step {
    pub kind: CopyKind,
    pub from: Seq<u8>,
    pub to: Seq<u8>,
}

impl View for CopyStep {
    type V = Step;

    open spec fn view(&self) -> Step {
        Step { kind: self.kind, from: self.from@, to: self.to@ }
    }
}

/// What a list of steps stands for.
pub open spec fn steps_of(list: Seq<CopyStep>) -> Seq<Step> {
    Seq::new(list.len(), |i: int| list[i]@)
}

/// The path of the entry `name` of the directory `dir`.
pub open spec fn below(dir: Seq<u8>, name: Seq<u8>) -> Seq<u8> {
    stem(dir) + name
}

/// The steps that copy `tree` from `from` to `to`.
pub open spec fn copy_of(tree: Tree, from: Seq<u8>, to: Seq<u8>) -> Seq<Step>
    decreases tree,
{
    match tree {
        Tree::File { .. } => seq![Step { kind: CopyKind::CopyFile, from, to }],
        Tree::Directory(entries) => seq![Step { kind: CopyKind::MakeDirectory, from, to }]
            + copy_of_entries(entries@, from, to),
    }
}

/// The steps that copy `entries` from the directory `from` to the directory
/// `to`, one entry after the other.
pub open spec fn copy_of_entries(entries: Seq<TreeEntry>, from: Seq<u8>, to: Seq<u8>) -> Seq<Step>
    decreases entries,
{
    if entries.len() == 0 {
        Seq::empty()
    } else {
        copy_of_entries(entries.drop_last(), from, to) + copy_of(
            entries.last().tree,
            below(from, entries.last().name@),
            below(to, entries.last().name@),
        )
    }
}

/// Whether the step at `at` copies an entry of a directory that an earlier
/// step made.
pub open spec fn goes_into_made_directory(steps: Seq<Step>, at: int) -> bool {
    exists|earlier: int, name: Seq<u8>|
        0 <= earlier < at && (#[trigger] steps[earlier]).kind == CopyKind::MakeDirectory
            && steps[at].from == #[trigger] below(steps[earlier].from, name) && steps[at].to
            == below(steps[earlier].to, name)
}

/// Whether the step at `at` copies an entry of the directory `from` into the
/// directory `to`.
pub open spec fn goes_into(steps: Seq<Step>, at: int, from: Seq<u8>, to: Seq<u8>) -> bool {
    exists|name: Seq<u8>| steps[at].from == #[trigger] below(from, name) && steps[at].to == below(to, name)
}

/// The order of the steps. The first step copies the item itself: it makes
/// the directory `to` or copies the file `from` to `to`. Every later step
/// copies an entry of a directory that an earlier step made, from the same
/// name in the source to the same name in the copy; so nothing is copied
/// before its place exists, and nothing is copied to a place outside `to`.
pub proof fn lemma_copy_order(tree: Tree, from: Seq<u8>, to: Seq<u8>)
    ensures
        copy_of(tree, from, to).len() >= 1,
        copy_of(tree, from, to)[0] == (Step {
            kind: if tree is Directory {
                CopyKind::MakeDirectory
            } else {
                CopyKind::CopyFile
            },
            from,
            to,
        }),
        forall|at: int|
            1 <= at < copy_of(tree, from, to).len() ==> goes_into_made_directory(
                copy_of(tree, from, to),
                at,
            ),
    decreases tree,
{
    match tree {
        Tree::File { .. } => {},
        Tree::Directory(entries) => {
            let inner = copy_of_entries(entries@, from, to);
            let steps = copy_of(tree, from, to);
            lemma_copy_order_of_entries(entries@, from, to);
            assert forall|at: int| 1 <= at < steps.len() implies goes_into_made_directory(
                steps,
                at,
            ) by {
                assert(steps[at] == inner[at - 1]);
                assert(goes_into(inner, at - 1, from, to) || goes_into_made_directory(
                    inner,
                    at - 1,
                ));
                if goes_into(inner, at - 1, from, to) {
                    let name = choose|name: Seq<u8>|
                        inner[at - 1].from == #[trigger] below(from, name) && inner[at - 1].to
                            == below(to, name);
                    assert(steps[0].kind == CopyKind::MakeDirectory && steps[at].from == below(
                        steps[0].from,
                        name,
                    ) && steps[at].to == below(steps[0].to, name));
                } else {
                    let (earlier, name) = choose|earlier: int, name: Seq<u8>|
                        0 <= earlier < at - 1 && (#[trigger] inner[earlier]).kind
                            == CopyKind::MakeDirectory && inner[at - 1].from == #[trigger] below(
                            inner[earlier].from,
                            name,
                        ) && inner[at - 1].to == below(inner[earlier].to, name);
                    assert(steps[earlier + 1] == inner[earlier]);
                    assert(steps[earlier + 1].kind == CopyKind::MakeDirectory && steps[at].from
                        == below(steps[earlier + 1].from, name) && steps[at].to == below(
                        steps[earlier + 1].to,
                        name,
                    ));
                }
            }
        },
    }
}

/// The order of the steps that copy the entries of a directory: each step
/// copies an entry of that directory, or an entry of a directory that an
/// earlier one of these steps made.
pub proof fn lemma_copy_order_of_entries(entries: Seq<TreeEntry>, from: Seq<u8>, to: Seq<u8>)
    ensures
        forall|at: int|
            0 <= at < copy_of_entries(entries, from, to).len() ==> goes_into(
                copy_of_entries(entries, from, to),
                at,
                from,
                to,
            ) || goes_into_made_directory(copy_of_entries(entries, from, to), at),
    decreases entries,
{
    if entries.len() > 0 {
        let front = copy_of_entries(entries.drop_last(), from, to);
        let last = entries.last();
        let child_from = below(from, last.name@);
        let child_to = below(to, last.name@);
        let added = copy_of(last.tree, child_from, child_to);
        let steps = copy_of_entries(entries, from, to);
        lemma_copy_order_of_entries(entries.drop_last(), from, to);
        lemma_copy_order(last.tree, child_from, child_to);
        assert forall|at: int| 0 <= at < steps.len() implies goes_into(steps, at, from, to)
            || goes_into_made_directory(steps, at) by {
            if at < front.len() {
                assert(steps[at] == front[at]);
                assert(goes_into(front, at, from, to) || goes_into_made_directory(front, at));
                if goes_into(front, at, from, to) {
                    let name = choose|name: Seq<u8>|
                        front[at].from == #[trigger] below(from, name) && front[at].to == below(
                            to,
                            name,
                        );
                    assert(steps[at].from == below(from, name) && steps[at].to == below(to, name));
                } else {
                    let (earlier, name) = choose|earlier: int, name: Seq<u8>|
                        0 <= earlier < at && (#[trigger] front[earlier]).kind
                            == CopyKind::MakeDirectory && front[at].from == #[trigger] below(
                            front[earlier].from,
                            name,
                        ) && front[at].to == below(front[earlier].to, name);
                    assert(steps[earlier] == front[earlier]);
                    assert(steps[earlier].kind == CopyKind::MakeDirectory && steps[at].from
                        == below(steps[earlier].from, name) && steps[at].to == below(
                        steps[earlier].to,
                        name,
                    ));
                }
            } else {
                let inner = at - front.len();
                assert(steps[at] == added[inner]);
                if inner == 0 {
                    assert(steps[at].from == below(from, last.name@) && steps[at].to == below(
                        to,
                        last.name@,
                    ));
                } else {
                    assert(goes_into_made_directory(added, inner));
                    let (earlier, name) = choose|earlier: int, name: Seq<u8>|
                        0 <= earlier < inner && (#[trigger] added[earlier]).kind
                            == CopyKind::MakeDirectory && added[inner].from == #[trigger] below(
                            added[earlier].from,
                            name,
                        ) && added[inner].to == below(added[earlier].to, name);
                    let place = front.len() + earlier;
                    assert(steps[place] == added[earlier]);
                    assert(steps[place].kind == CopyKind::MakeDirectory && steps[at].from == below(
                        steps[place].from,
                        name,
                    ) && steps[at].to == below(steps[place].to, name));
                }
            }
        }
    }
}

/// The path of the entry `name` of the directory `dir`.
pub fn entry_path(dir: &[u8], name: &[u8]) -> (out: Vec<u8>)
    ensures
        out@ == below(dir@, name@),
{
    let mut out: Vec<u8> = Vec::new();
    append(&mut out, dir);
    if dir.len() > 0 && dir[dir.len() - 1] != SLASH {
        out.push(SLASH);
    }
    append(&mut out, name);
    out
}

/// Appends the steps that copy `tree` from `from` to `to`.
fn push_steps(out: &mut Vec<CopyStep>, tree: &Tree, from: &[u8], to: &[u8])
    ensures
        steps_of(final(out)@) == steps_of(old(out)@) + copy_of(*tree, from@, to@),
    decreases tree,
{
    let ghost before = steps_of(out@);
    assert(from@.subrange(0, from@.len() as int) == from@);
    assert(to@.subrange(0, to@.len() as int) == to@);
    match tree {
        Tree::File { .. } => {
            let step = CopyStep {
                kind: CopyKind::CopyFile,
                from: copy_range(from, 0, from.len()),
                to: copy_range(to, 0, to.len()),
            };
            let ghost step_view = step@;
            out.push(step);
            assert(steps_of(out@) =~= before + seq![step_view]);
        },
        Tree::Directory(entries) => {
            let step = CopyStep {
                kind: CopyKind::MakeDirectory,
                from: copy_range(from, 0, from.len()),
                to: copy_range(to, 0, to.len()),
            };
            let ghost first = step@;
            out.push(step);
            assert(steps_of(out@) =~= before + seq![first]);
            let mut i: usize = 0;
            assert(entries@.take(0).len() == 0);
            assert(copy_of_entries(entries@.take(0), from@, to@) =~= Seq::<Step>::empty());
            while i < entries.len()
                invariant
                    i <= entries@.len(),
                    *tree == Tree::Directory(*entries),
                    steps_of(out@) == before + seq![first] + copy_of_entries(
                        entries@.take(i as int),
                        from@,
                        to@,
                    ),
                decreases entries@.len() - i,
            {
                let ghost shown = entries@.take(i + 1);
                let ghost so_far = steps_of(out@);
                assert(shown.drop_last() == entries@.take(i as int));
                assert(shown.last() == entries@[i as int]);
                let entry = &entries[i];
                let child_from = entry_path(from, entry.name.as_slice());
                let child_to = entry_path(to, entry.name.as_slice());
                proof {
                    let held = tree->0;
                    assert(held == *entries);
                    assert(decreases_to!(*tree => held));
                    assert(decreases_to!(held => held@));
                    assert(decreases_to!(held@ => held@[i as int]));
                    assert(decreases_to!(held@[i as int] => held@[i as int].tree));
                }
                push_steps(out, &entry.tree, child_from.as_slice(), child_to.as_slice());
                assert(steps_of(out@) == so_far + copy_of(entry.tree, child_from@, child_to@));
                assert(steps_of(out@) =~= before + seq![first] + copy_of_entries(shown, from@, to@));
                i += 1;
            }
            assert(entries@.take(i as int) == entries@);
            assert(steps_of(out@) =~= before + (seq![first] + copy_of_entries(entries@, from@, to@)));
        },
    }
}

/// The steps that copy `tree`, which lies at `from`, to `to`: a directory is
/// made before what it holds is copied into it, and what it holds follows
/// entry by entry, each with all below it.
pub fn copy_file_to_trash(tree: &Tree, from: &[u8], to: &[u8]) -> (out: Vec<CopyStep>)
    ensures
        steps_of(out@) == copy_of(*tree, from@, to@),
{
    let mut out: Vec<CopyStep> = Vec::new();
    assert(steps_of(out@) =~= Seq::<Step>::empty());
    push_steps(&mut out, tree, from, to);
    out
}

} // verus!
