//! The items of the trash, as a listing shows them.

use vstd::prelude::*;
use crate::bytes::{
    append, ascii, comes_before, copy_range, lemma_precedes_transitive, literal, precedes,
};
use crate::layout::{item_name, item_of};
use crate::lines::views;
use crate::paths::{file_name, file_name_of, join, joined};
use crate::trashinfo::{decode, decoded_date, decoded_path};

verus! {

/// One item of the trash.
#[derive(Debug, Clone, PartialEq, Eq)]
pub struct TrashEntry {
    /// The name of the item in `files/`.
    pub name: Vec<u8>,
    /// Where the item lies.
    pub path: Vec<u8>,
    /// Where its `.trashinfo` file lies.
    pub info_path: Vec<u8>,
    /// The path that it had before it was trashed.
    pub original_path: Vec<u8>,
    /// When it was trashed.
    pub deletion_date: Vec<u8>,
}

/// What a `TrashEntry` stands for.
pub struct Entry {
    pub name: Seq<u8>,
    pub path: Seq<u8>,
    pub info_path: Seq<u8>,
    pub original_path: Seq<u8>,
    pub deletion_date: Seq<u8>,
}

impl View for TrashEntry {
    type V = Entry;

    open spec fn view(&self) -> Entry {
        Entry {
            name: self.name@,
            path: self.path@,
            info_path: self.info_path@,
            original_path: self.original_path@,
            deletion_date: self.deletion_date@,
        }
    }
}

/// What a list of entries stands for.
pub open spec fn entries_of(list: Seq<TrashEntry>) -> Seq<Entry> {
    Seq::new(list.len(), |i: int| list[i]@)
}

/// The item that the file at `info_path` tells of: the name of the file
/// without `.trashinfo` at its end, where it ends so.
pub open spec fn listed_name(info_path: Seq<u8>) -> Option<Seq<u8>> {
    match file_name_of(info_path) {
        Some(file) => item_of(file),
        None => None,
    }
}

/// The entry for the file at `info_path`. There is one where the file is a
/// `.trashinfo` file, its item lies in `files_dir` (`present`) and the file
/// could be read (`content`).
pub open spec fn entry_of(
    files_dir: Seq<u8>,
    info_path: Seq<u8>,
    trash: Seq<u8>,
    present: bool,
    content: Option<Seq<u8>>,
) -> Option<Entry> {
    match (listed_name(info_path), content) {
        (Some(name), Some(text)) => if present {
            Some(
                Entry {
                    name,
                    path: joined(files_dir, name),
                    info_path,
                    original_path: decoded_path(text, trash),
                    deletion_date: decoded_date(text),
                },
            )
        } else {
            None
        },
        _ => None,
    }
}

impl TrashEntry {
    /// Where the item lies that the file at `info_path` tells of, if that is
    /// a `.trashinfo` file.
    pub fn content_path(files_dir: &[u8], info_path: &[u8]) -> (out: Option<Vec<u8>>)
        ensures
            match out {
                Some(path) => listed_name(info_path@) is Some && path@ == joined(
                    files_dir@,
                    listed_name(info_path@)->0,
                ),
                None => listed_name(info_path@) is None,
            },
    {
        match file_name(info_path) {
            Some(file) => match item_name(file.as_slice()) {
                Some(name) => Some(join(files_dir, name.as_slice())),
                None => None,
            },
            None => None,
        }
    }

    /// The entry for the file at `info_path` of the trash directory `trash`.
    /// `present` says whether the item lies at its `content_path`, and
    /// `content` is the text of the file, where it could be read. A file
    /// without its item is passed over, as is one that is no `.trashinfo`
    /// file.
    pub fn from_paths(
        files_dir: &[u8],
        info_path: &[u8],
        trash: &[u8],
        present: bool,
        content: Option<&[u8]>,
    ) -> (out: Option<TrashEntry>)
        ensures
            match out {
                Some(entry) => entry_of(
                    files_dir@,
                    info_path@,
                    trash@,
                    present,
                    match content {
                        Some(text) => Some(text@),
                        None => None,
                    },
                ) == Some(entry@),
                None => entry_of(
                    files_dir@,
                    info_path@,
                    trash@,
                    present,
                    match content {
                        Some(text) => Some(text@),
                        None => None,
                    },
                ) is None,
            },
    {
        let file = match file_name(info_path) {
            Some(file) => file,
            None => {
                return None;
            },
        };
        let name = match item_name(file.as_slice()) {
            Some(name) => name,
            None => {
                return None;
            },
        };
        if !present {
            return None;
        }
        let text = match content {
            Some(text) => text,
            None => {
                return None;
            },
        };
        let record = decode(text, trash);
        let path = join(files_dir, name.as_slice());
        assert(info_path@.subrange(0, info_path@.len() as int) == info_path@);
        Some(
            TrashEntry {
                name,
                path,
                info_path: copy_range(info_path, 0, info_path.len()),
                original_path: record.original_path,
                deletion_date: record.deletion_date,
            },
        )
    }
}

/// What was found of one file in the `info/` of a trash directory.
#[derive(Debug, Clone, PartialEq, Eq)]
pub struct InfoFile {
    /// The trash directory.
    pub trash: Vec<u8>,
    /// The path of the file.
    pub info_path: Vec<u8>,
    /// Whether its item lies at its `content_path`.
    pub present: bool,
    /// The text of the file, where it could be read.
    pub content: Option<Vec<u8>>,
}

/// What an `InfoFile` stands for.
pub struct Found {
    pub trash: Seq<u8>,
    pub info_path: Seq<u8>,
    pub present: bool,
    pub content: Option<Seq<u8>>,
}

impl View for InfoFile {
    type V = Found;

    open spec fn view(&self) -> Found {
        Found {
            trash: self.trash@,
            info_path: self.info_path@,
            present: self.present,
            content: match self.content {
                Some(text) => Some(text@),
                None => None,
            },
        }
    }
}

/// What a list of files stands for.
pub open spec fn found_of(list: Seq<InfoFile>) -> Seq<Found> {
    Seq::new(list.len(), |i: int| list[i]@)
}

/// The entry for a file that was found, if it gives one.
pub open spec fn entry_of_found(found: Found) -> Option<Entry> {
    entry_of(
        crate::layout::files_dir_of(found.trash),
        found.info_path,
        found.trash,
        found.present,
        found.content,
    )
}

/// The entries of the files that were found, in their order. A file that
/// gives no entry is passed over, and entries of one name from different
/// trash directories all stay.
pub open spec fn collected(found: Seq<Found>) -> Seq<Entry>
    decreases found.len(),
{
    if found.len() == 0 {
        Seq::empty()
    } else {
        match entry_of_found(found.last()) {
            Some(entry) => collected(found.drop_last()).push(entry),
            None => collected(found.drop_last()),
        }
    }
}

/// The entries of the trash, where `found` tells of each file in the `info/`
/// of each trash directory.
pub fn get_all_trash_entries(found: &Vec<InfoFile>) -> (out: Vec<TrashEntry>)
    ensures
        entries_of(out@) == collected(found_of(found@)),
{
    let mut out: Vec<TrashEntry> = Vec::new();
    let mut i: usize = 0;
    assert(found_of(found@).take(0).len() == 0);
    assert(entries_of(out@) =~= Seq::<Entry>::empty());
    while i < found.len()
        invariant
            i <= found@.len(),
            entries_of(out@) == collected(found_of(found@).take(i as int)),
        decreases found@.len() - i,
    {
        let ghost shown = found_of(found@).take(i + 1);
        let ghost before = entries_of(out@);
        assert(shown.drop_last() == found_of(found@).take(i as int));
        assert(shown.last() == found@[i as int]@);
        let file = &found[i];
        let files_dir = crate::layout::files_dir(file.trash.as_slice());
        let content: Option<&[u8]> = match &file.content {
            Some(text) => Some(text.as_slice()),
            None => None,
        };
        match TrashEntry::from_paths(
            files_dir.as_slice(),
            file.info_path.as_slice(),
            file.trash.as_slice(),
            file.present,
            content,
        ) {
            Some(entry) => {
                let ghost entry_view = entry@;
                out.push(entry);
                assert(entries_of(out@) =~= before.push(entry_view));
            },
            None => {},
        }
        i += 1;
    }
    assert(found_of(found@).take(i as int) == found_of(found@));
    out
}

/// An item that lies in the trash with its `.trashinfo` file is listed under
/// its name, with what the file tells of it.
pub proof fn lemma_entry_of_item(trash: Seq<u8>, name: Seq<u8>, text: Seq<u8>)
    requires
        !name.contains(crate::bytes::SLASH),
    ensures
        entry_of(
            crate::layout::files_dir_of(trash),
            crate::layout::info_path_of(trash, name),
            trash,
            true,
            Some(text),
        ) == Some(
            Entry {
                name,
                path: crate::layout::content_path_of(trash, name),
                info_path: crate::layout::info_path_of(trash, name),
                original_path: decoded_path(text, trash),
                deletion_date: decoded_date(text),
            },
        ),
{
    crate::layout::lemma_info_path(trash, name);
    crate::layout::lemma_item_of_info_file(name);
}

/// Where an entry called `name` goes among `sorted`: before the first entry
/// whose name comes after `name`, or at the end.
pub open spec fn insertion_point(sorted: Seq<Entry>, name: Seq<u8>) -> int
    decreases sorted.len(),
{
    if sorted.len() == 0 || precedes(name, sorted[0].name) {
        0
    } else {
        1 + insertion_point(sorted.skip(1), name)
    }
}

/// The entries in the order of their names. Entries of one name, from
/// different trash directories, keep the order in which they came.
pub open spec fn sorted_by_name(entries: Seq<Entry>) -> Seq<Entry>
    decreases entries.len(),
{
    if entries.len() == 0 {
        Seq::empty()
    } else {
        let front = sorted_by_name(entries.drop_last());
        front.insert(insertion_point(front, entries.last().name), entries.last())
    }
}

/// Whether no entry comes before one whose name comes before its own.
pub open spec fn is_ordered(entries: Seq<Entry>) -> bool {
    forall|i: int, j: int|
        0 <= i < j < entries.len() ==> !precedes(
            (#[trigger] entries[j]).name,
            (#[trigger] entries[i]).name,
        )
}

/// What an insertion point is: no entry before it has a name after `name`,
/// and the entry at it has.
pub proof fn lemma_insertion_point(sorted: Seq<Entry>, name: Seq<u8>)
    ensures
        0 <= insertion_point(sorted, name) <= sorted.len(),
        forall|i: int|
            0 <= i < insertion_point(sorted, name) ==> !precedes(name, (#[trigger] sorted[i]).name),
        insertion_point(sorted, name) < sorted.len() ==> precedes(
            name,
            sorted[insertion_point(sorted, name)].name,
        ),
    decreases sorted.len(),
{
    if sorted.len() > 0 && !precedes(name, sorted[0].name) {
        let rest = sorted.skip(1);
        lemma_insertion_point(rest, name);
        let at = insertion_point(rest, name);
        assert forall|i: int| 0 <= i < at + 1 implies !precedes(name, (#[trigger] sorted[i]).name) by {
            if i > 0 {
                assert(rest[i - 1] == sorted[i]);
            }
        }
        if at < rest.len() {
            assert(rest[at] == sorted[at + 1]);
        }
    }
}

/// Putting an entry at its insertion point keeps a list in order.
pub proof fn lemma_insert_keeps_order(sorted: Seq<Entry>, entry: Entry)
    requires
        is_ordered(sorted),
    ensures
        is_ordered(sorted.insert(insertion_point(sorted, entry.name), entry)),
{
    let at = insertion_point(sorted, entry.name);
    let after = sorted.insert(at, entry);
    lemma_insertion_point(sorted, entry.name);
    assert forall|i: int, j: int| 0 <= i < j < after.len() implies !precedes(
        (#[trigger] after[j]).name,
        (#[trigger] after[i]).name,
    ) by {
        if j == at {
            assert(after[i] == sorted[i]);
        } else if i == at {
            assert(after[j] == sorted[j - 1]);
            if precedes(after[j].name, entry.name) {
                lemma_precedes_transitive(after[j].name, entry.name, sorted[at].name);
                if j - 1 > at {
                    assert(!precedes(sorted[j - 1].name, sorted[at].name));
                } else {
                    crate::bytes::lemma_precedes_irreflexive(sorted[at].name);
                }
            }
        } else {
            let a = if i < at {
                i
            } else {
                i - 1
            };
            let b = if j < at {
                j
            } else {
                j - 1
            };
            assert(after[i] == sorted[a] && after[j] == sorted[b]);
            assert(!precedes(sorted[b].name, sorted[a].name));
        }
    }
}

/// A sorted list is in order and holds what the list held, each entry as
/// often as before.
pub proof fn lemma_sorted_by_name(entries: Seq<Entry>)
    ensures
        is_ordered(sorted_by_name(entries)),
        sorted_by_name(entries).len() == entries.len(),
        sorted_by_name(entries).to_multiset() == entries.to_multiset(),
    decreases entries.len(),
{
    broadcast use vstd::seq_lib::group_to_multiset_ensures;

    if entries.len() > 0 {
        let front = sorted_by_name(entries.drop_last());
        let last = entries.last();
        lemma_sorted_by_name(entries.drop_last());
        lemma_insertion_point(front, last.name);
        lemma_insert_keeps_order(front, last);
        let at = insertion_point(front, last.name);
        vstd::seq_lib::to_multiset_insert(front, at, last);
        assert(entries == entries.drop_last().push(last));
        assert(entries.to_multiset() == entries.drop_last().to_multiset().insert(last));
    } else {
        assert(sorted_by_name(entries) =~= entries);
    }
}

/// The entries in the order of their names.
pub fn sort_entries(entries: Vec<TrashEntry>) -> (out: Vec<TrashEntry>)
    ensures
        entries_of(out@) == sorted_by_name(entries_of(entries@)),
        is_ordered(entries_of(out@)),
        entries_of(out@).to_multiset() == entries_of(entries@).to_multiset(),
{
    let ghost given = entries_of(entries@);
    let mut rest = entries;
    let mut out: Vec<TrashEntry> = Vec::new();
    let ghost mut done: int = 0;
    assert(given.take(0) =~= Seq::<Entry>::empty());
    assert(entries_of(out@) =~= Seq::<Entry>::empty());
    while rest.len() > 0
        invariant
            0 <= done <= given.len(),
            entries_of(rest@) == given.skip(done),
            entries_of(out@) == sorted_by_name(given.take(done)),
        decreases rest@.len(),
    {
        let ghost before = entries_of(out@);
        let ghost waiting = entries_of(rest@);
        let ghost held = rest@;
        assert(waiting.len() == rest@.len());
        assert(done < given.len());
        let entry = rest.remove(0);
        assert(entry@ == waiting[0]);
        assert(waiting[0] == given[done]);
        assert(entries_of(rest@) =~= given.skip(done + 1)) by {
            assert forall|k: int| 0 <= k < rest@.len() implies entries_of(rest@)[k] == given.skip(
                done + 1,
            )[k] by {
                assert(rest@[k] == held[k + 1]);
                assert(waiting[k + 1] == held[k + 1]@);
                assert(waiting[k + 1] == given[done + k + 1]);
            }
        }
        let mut at: usize = 0;
        assert(before.skip(0) == before);
        while at < out.len() && !comes_before(entry.name.as_slice(), out[at].name.as_slice())
            invariant
                at <= out@.len(),
                before == entries_of(out@),
                insertion_point(before, entry@.name) == at + insertion_point(
                    before.skip(at as int),
                    entry@.name,
                ),
            decreases out@.len() - at,
        {
            let ghost tail = before.skip(at as int);
            assert(tail[0] == out@[at as int]@);
            assert(tail.skip(1) == before.skip(at + 1));
            at += 1;
        }
        proof {
            let tail = before.skip(at as int);
            if at < out@.len() {
                assert(tail[0] == out@[at as int]@);
            }
            assert(insertion_point(tail, entry@.name) == 0);
            let shown = given.take(done + 1);
            assert(shown.drop_last() == given.take(done));
            assert(shown.last() == entry@);
        }
        let ghost entry_view = entry@;
        out.insert(at, entry);
        assert(entries_of(out@) =~= before.insert(at as int, entry_view));
        proof {
            done = done + 1;
        }
    }
    proof {
        assert(given.skip(done).len() == 0);
        assert(given.take(done) == given);
        lemma_sorted_by_name(given);
    }
    out
}

/// What a listing says of an empty trash.
pub open spec fn empty_notice() -> Seq<u8> {
    ascii("Trash is empty"@)
}

/// The line of an entry in a listing: its name, and with `verbose` the date
/// and the original path after it.
pub open spec fn listed_line(entry: Entry, verbose: bool) -> Seq<u8> {
    if verbose {
        entry.name + ascii(" (deleted: "@) + entry.deletion_date + ascii(", original: "@)
            + entry.original_path + ascii(")"@)
    } else {
        entry.name
    }
}

/// The lines of a listing of `entries`, which are in the order of the
/// listing.
pub open spec fn listed_lines(entries: Seq<Entry>, verbose: bool) -> Seq<Seq<u8>> {
    if entries.len() == 0 {
        seq![empty_notice()]
    } else {
        Seq::new(entries.len(), |i: int| listed_line(entries[i], verbose))
    }
}

/// The line of an entry in a listing.
pub fn format_entry(entry: &TrashEntry, verbose: bool) -> (out: Vec<u8>)
    ensures
        out@ == listed_line(entry@, verbose),
{
    let mut out: Vec<u8> = Vec::new();
    append(&mut out, entry.name.as_slice());
    if verbose {
        proof {
            reveal_strlit(" (deleted: ");
            reveal_strlit(", original: ");
            reveal_strlit(")");
        }
        append(&mut out, literal(" (deleted: "));
        append(&mut out, entry.deletion_date.as_slice());
        append(&mut out, literal(", original: "));
        append(&mut out, entry.original_path.as_slice());
        append(&mut out, literal(")"));
    }
    out
}

/// The lines that a listing of the trash prints: one line for each entry, in
/// the order of the names, or one line that says that the trash is empty.
pub fn list(entries: Vec<TrashEntry>, verbose: bool) -> (out: Vec<Vec<u8>>)
    ensures
        views(out@) == listed_lines(sorted_by_name(entries_of(entries@)), verbose),
{
    let ghost given = entries_of(entries@);
    let sorted = sort_entries(entries);
    let mut out: Vec<Vec<u8>> = Vec::new();
    if sorted.len() == 0 {
        proof {
            reveal_strlit("Trash is empty");
        }
        out.push(vstd::slice::slice_to_vec(literal("Trash is empty")));
        assert(views(out@) =~= seq![empty_notice()]);
        return out;
    }
    let mut i: usize = 0;
    while i < sorted.len()
        invariant
            i <= sorted@.len(),
            out@.len() == i,
            forall|k: int| 0 <= k < i ==> out@[k]@ == listed_line(sorted@[k]@, verbose),
        decreases sorted@.len() - i,
    {
        out.push(format_entry(&sorted[i], verbose));
        i += 1;
    }
    assert(views(out@) =~= listed_lines(entries_of(sorted@), verbose));
    out
}

} // verus!
