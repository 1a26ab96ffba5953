//! What lies at a path, as the caller found it: a directory with what it
//! holds, or something else with its length.

use vstd::prelude::*;

verus! {

/// What lies at a path.
pub enum Tree {
    /// A file, or anything else that is no directory, of `length` bytes.
    File { length: u64 },
    /// A directory with its entries.
    Directory(Vec<TreeEntry>),
}

/// One entry of a directory.
pub struct TreeEntry {
    pub name: Vec<u8>,
    pub tree: Tree,
}

/// The size of what lies at a path: the length of a file, and for a
/// directory the sizes of its entries together. A directory adds nothing of
/// its own.
pub open spec fn size_of(tree: Tree) -> nat
    decreases tree,
{
    match tree {
        Tree::File { length } => length as nat,
        Tree::Directory(entries) => size_of_entries(entries@),
    }
}

/// The sizes of `entries` together.
pub open spec fn size_of_entries(entries: Seq<TreeEntry>) -> nat
    decreases entries,
{
    if entries.len() == 0 {
        0
    } else {
        size_of_entries(entries.drop_last()) + size_of(entries.last().tree)
    }
}

/// The sizes of some entries are no more than the sizes of all.
pub proof fn lemma_size_grows(entries: Seq<TreeEntry>, count: int)
    requires
        0 <= count <= entries.len(),
    ensures
        size_of_entries(entries.take(count)) <= size_of_entries(entries),
    decreases entries.len() - count,
{
    if count < entries.len() {
        lemma_size_grows(entries, count + 1);
        assert(entries.take(count + 1).drop_last() == entries.take(count));
    } else {
        assert(entries.take(count) == entries);
    }
}

/// The size of what lies at a path, where a `u64` holds it.
pub fn calculate_directory_size(tree: &Tree) -> (size: Option<u64>)
    ensures
        size == if size_of(*tree) <= u64::MAX {
            Some(size_of(*tree) as u64)
        } else {
            None
        },
    decreases tree,
{
    match tree {
        Tree::File { length } => Some(*length),
        Tree::Directory(entries) => {
            let mut sum: u64 = 0;
            let mut i: usize = 0;
            assert(entries@.take(0).len() == 0);
            while i < entries.len()
                invariant
                    i <= entries@.len(),
                    *tree == Tree::Directory(*entries),
                    sum == size_of_entries(entries@.take(i as int)),
                decreases entries@.len() - i,
            {
                let ghost shown = entries@.take(i + 1);
                assert(shown.drop_last() == entries@.take(i as int));
                assert(shown.last() == entries@[i as int]);
                proof {
                    let held = tree->0;
                    assert(held == *entries);
                    assert(decreases_to!(*tree => held));
                    assert(decreases_to!(held => held@));
                    assert(decreases_to!(held@ => held@[i as int]));
                    assert(decreases_to!(held@[i as int] => held@[i as int].tree));
                    lemma_size_grows(entries@, i + 1);
                }
                let next = match calculate_directory_size(&entries[i].tree) {
                    Some(size) => sum.checked_add(size),
                    None => None,
                };
                match next {
                    Some(next) => {
                        sum = next;
                    },
                    None => {
                        return None;
                    },
                }
                i += 1;
            }
            assert(entries@.take(i as int) == entries@);
            Some(sum)
        },
    }
}

} // verus!
