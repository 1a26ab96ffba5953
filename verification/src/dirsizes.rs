//! The `directorysizes` file of a trash directory: for each trashed
//! directory one line with its size in bytes, the modification time of its
//! `.trashinfo` file in seconds, and its percent-encoded name.
//!
//! ```text
//! <size> <mtime> <percent-encoded name>
//! ```

use vstd::prelude::*;
use crate::bytes::{append, copy_range, equal, find_from, first_index, lemma_first_index, CR, LF};
use crate::decimal::{
    digits, is_digit, lemma_digits, lemma_signed_digits, parse_i64, parse_u64, push_i64,
    push_u64, signed_digits, signed_value, unsigned_value, MINUS,
};
use crate::lines::{holds, lemma_lines_first, lines, split_lines, views, without_cr};
use crate::percent::{decoded, encoded, lemma_decoded_encoded, lemma_encoded_bytes};

verus! {

/// The space between the fields of a line.
pub const SPACE: u8 = 32;

/// One line of the cache.
#[derive(Debug, Clone, PartialEq, Eq)]
pub struct DirectorySizesCacheEntry {
    /// The name of the directory in `files/`.
    pub directory_name: Vec<u8>,
    /// The sum of the lengths of the files below it.
    pub size_bytes: u64,
    /// When its `.trashinfo` file was last modified, in seconds since 1970.
    pub info_mtime_seconds: i64,
}

/// What a `DirectorySizesCacheEntry` stands for.
pub struct CacheEntry {
    pub name: Seq<u8>,
    pub size: u64,
    pub mtime: i64,
}

impl View for DirectorySizesCacheEntry {
    type V = CacheEntry;

    open spec fn view(&self) -> CacheEntry {
        CacheEntry {
            name: self.directory_name@,
            size: self.size_bytes,
            mtime: self.info_mtime_seconds,
        }
    }
}

/// What a list of entries stands for.
pub open spec fn entries_of(list: Seq<DirectorySizesCacheEntry>) -> Seq<CacheEntry> {
    Seq::new(list.len(), |i: int| list[i]@)
}

/// The entry that a line gives: the size up to the first space, the time up
/// to the second, and the name, percent-decoded, in what follows. A line with
/// fewer than two spaces, or with a size or a time that is no number of its
/// type, gives none.
pub open spec fn parsed_line(line: Seq<u8>) -> Option<CacheEntry> {
    let a = first_index(line, SPACE);
    let rest = line.skip(a + 1);
    let b = first_index(rest, SPACE);
    if 0 <= a < line.len() && 0 <= b < rest.len() {
        match (unsigned_value(line.take(a)), signed_value(rest.take(b))) {
            (Some(size), Some(mtime)) => if size <= u64::MAX && i64::MIN <= mtime <= i64::MAX {
                Some(
                    CacheEntry {
                        name: decoded(rest.skip(b + 1)),
                        size: size as u64,
                        mtime: mtime as i64,
                    },
                )
            } else {
                None
            },
            _ => None,
        }
    } else {
        None
    }
}

/// Whether no two of the entries have the same name.
pub open spec fn distinct_names(entries: Seq<CacheEntry>) -> bool {
    forall|i: int, j: int|
        0 <= i < j < entries.len() ==> (#[trigger] entries[i]).name != (#[trigger] entries[j]).name
}

/// Whether one of the entries has the name `name`.
pub open spec fn has_name(entries: Seq<CacheEntry>, name: Seq<u8>) -> bool {
    exists|i: int| 0 <= i < entries.len() && (#[trigger] entries[i]).name == name
}

/// Whether the entry at `at` is the first that has the name `name`.
pub open spec fn is_first_named(entries: Seq<CacheEntry>, name: Seq<u8>, at: int) -> bool {
    &&& 0 <= at < entries.len()
    &&& entries[at].name == name
    &&& forall|i: int| 0 <= i < at ==> (#[trigger] entries[i]).name != name
}

/// The place of the first entry that has the name `name`.
pub open spec fn first_named(entries: Seq<CacheEntry>, name: Seq<u8>) -> int {
    choose|at: int| is_first_named(entries, name, at)
}

/// The entries with `entry` among them: in the place of the first one that
/// had its name, or at the end where none had.
pub open spec fn upserted(entries: Seq<CacheEntry>, entry: CacheEntry) -> Seq<CacheEntry> {
    if has_name(entries, entry.name) {
        entries.update(first_named(entries, entry.name), entry)
    } else {
        entries.push(entry)
    }
}

/// An entry of some name has a first entry of that name before it or is it.
pub proof fn lemma_first_named(entries: Seq<CacheEntry>, name: Seq<u8>)
    requires
        has_name(entries, name),
    ensures
        is_first_named(entries, name, first_named(entries, name)),
    decreases entries.len(),
{
    let found = choose|i: int| 0 <= i < entries.len() && (#[trigger] entries[i]).name == name;
    if entries[0].name == name {
        assert(is_first_named(entries, name, 0));
    } else {
        let rest = entries.skip(1);
        assert(rest[found - 1].name == name);
        lemma_first_named(rest, name);
        let at = first_named(rest, name);
        assert forall|i: int| 0 <= i < at + 1 implies (#[trigger] entries[i]).name != name by {
            if i > 0 {
                assert(rest[i - 1] == entries[i]);
            }
        }
        assert(rest[at] == entries[at + 1]);
        assert(is_first_named(entries, name, at + 1));
    }
}

/// The entries that the lines of a cache give: of two lines with one name the
/// later one counts.
pub open spec fn loaded(lines: Seq<Seq<u8>>) -> Seq<CacheEntry>
    decreases lines.len(),
{
    if lines.len() == 0 {
        Seq::empty()
    } else {
        match parsed_line(lines.last()) {
            Some(entry) => upserted(loaded(lines.drop_last()), entry),
            None => loaded(lines.drop_last()),
        }
    }
}

/// The entries whose directory is among `present`, in their order.
pub open spec fn kept(entries: Seq<CacheEntry>, present: Seq<Seq<u8>>) -> Seq<CacheEntry>
    decreases entries.len(),
{
    if entries.len() == 0 {
        Seq::empty()
    } else if present.contains(entries.last().name) {
        kept(entries.drop_last(), present).push(entries.last())
    } else {
        kept(entries.drop_last(), present)
    }
}

/// The line of an entry, without its line feed.
pub open spec fn line_of(entry: CacheEntry) -> Seq<u8> {
    digits(entry.size as nat) + seq![SPACE] + signed_digits(entry.mtime as int) + seq![SPACE]
        + encoded(entry.name)
}

/// The text of a cache with these entries.
pub open spec fn rendered(entries: Seq<CacheEntry>) -> Seq<u8>
    decreases entries.len(),
{
    if entries.len() == 0 {
        Seq::empty()
    } else {
        rendered(entries.drop_last()) + line_of(entries.last()) + seq![LF]
    }
}

/// The text of the cache after the directory `name` was trashed: what
/// `existing` held, with the entry of `name` new or renewed, and without the
/// entries of directories that are no longer in `files/`.
pub open spec fn updated_cache(
    existing: Seq<u8>,
    name: Seq<u8>,
    size: u64,
    mtime: i64,
    present: Seq<Seq<u8>>,
) -> Seq<u8> {
    rendered(kept(upserted(loaded(lines(existing)), CacheEntry { name, size, mtime }), present))
}

/// The entry that a line gives.
pub fn parse_line(line: &[u8]) -> (out: Option<DirectorySizesCacheEntry>)
    ensures
        match out {
            Some(entry) => parsed_line(line@) == Some(entry@),
            None => parsed_line(line@) is None,
        },
{
    assert(line@.skip(0) == line@);
    let a = find_from(line, SPACE, 0);
    if a >= line.len() {
        return None;
    }
    let b = find_from(line, SPACE, a + 1);
    if b >= line.len() {
        return None;
    }
    let ghost rest = line@.skip(a + 1);
    assert(line@.take(a as int) == line@.subrange(0, a as int));
    assert(rest.take(b - (a + 1)) == line@.subrange(a + 1, b as int));
    assert(rest.skip(b - (a + 1) + 1) == line@.subrange(b + 1, line@.len() as int));
    let size = parse_u64(vstd::slice::slice_subrange(line, 0, a));
    let mtime = parse_i64(vstd::slice::slice_subrange(line, a + 1, b));
    match (size, mtime) {
        (Some(size_bytes), Some(info_mtime_seconds)) => {
            let directory_name = crate::percent::decode(
                vstd::slice::slice_subrange(line, b + 1, line.len()),
            );
            Some(DirectorySizesCacheEntry { directory_name, size_bytes, info_mtime_seconds })
        },
        _ => None,
    }
}

/// Puts `entry` among `entries`: in the place of the one that has its name,
/// or at the end.
pub fn upsert(entries: &mut Vec<DirectorySizesCacheEntry>, entry: DirectorySizesCacheEntry)
    ensures
        entries_of(final(entries)@) == upserted(entries_of(old(entries)@), entry@),
        distinct_names(entries_of(old(entries)@)) ==> distinct_names(entries_of(final(entries)@)),
{
    let ghost before = entries_of(entries@);
    let mut i: usize = 0;
    while i < entries.len()
        invariant
            i <= entries@.len(),
            entries@ == old(entries)@,
            before == entries_of(entries@),
            forall|k: int| 0 <= k < i ==> (#[trigger] before[k]).name != entry@.name,
        decreases entries@.len() - i,
    {
        if equal(entries[i].directory_name.as_slice(), entry.directory_name.as_slice()) {
            assert(before[i as int].name == entry@.name);
            assert(has_name(before, entry@.name));
            assert(is_first_named(before, entry@.name, i as int));
            let ghost chosen = first_named(before, entry@.name);
            assert(chosen == i) by {
                assert(is_first_named(before, entry@.name, chosen));
                if chosen < i {
                    assert(before[chosen].name != entry@.name);
                }
                if chosen > i {
                    assert(before[i as int].name != entry@.name);
                }
            }
            let ghost entry_view = entry@;
            entries.set(i, entry);
            assert(entries_of(entries@) =~= before.update(i as int, entry_view));
            proof {
                if distinct_names(before) {
                    let after = entries_of(entries@);
                    assert forall|x: int, y: int| 0 <= x < y < after.len() implies (
                    #[trigger] after[x]).name != (#[trigger] after[y]).name by {
                        assert(before[x].name != before[y].name);
                    }
                }
            }
            return ;
        }
        i += 1;
    }
    assert(!has_name(before, entry@.name));
    let ghost entry_view = entry@;
    entries.push(entry);
    assert(entries_of(entries@) =~= before.push(entry_view));
    proof {
        if distinct_names(before) {
            let after = entries_of(entries@);
            assert forall|x: int, y: int| 0 <= x < y < after.len() implies (
            #[trigger] after[x]).name != (#[trigger] after[y]).name by {
                if y < before.len() {
                    assert(before[x].name != before[y].name);
                } else {
                    assert(before[x].name != entry_view.name);
                }
            }
        }
    }
}

/// The entries that the text of a cache gives.
pub fn load(existing: &[u8]) -> (entries: Vec<DirectorySizesCacheEntry>)
    ensures
        entries_of(entries@) == loaded(lines(existing@)),
        distinct_names(entries_of(entries@)),
{
    let all = split_lines(existing);
    let mut entries: Vec<DirectorySizesCacheEntry> = Vec::new();
    let mut i: usize = 0;
    assert(views(all@).take(0).len() == 0);
    assert(entries_of(entries@) =~= Seq::<CacheEntry>::empty());
    while i < all.len()
        invariant
            i <= all@.len(),
            entries_of(entries@) == loaded(views(all@).take(i as int)),
            distinct_names(entries_of(entries@)),
        decreases all@.len() - i,
    {
        let ghost shown = views(all@).take(i + 1);
        assert(shown.drop_last() == views(all@).take(i as int));
        assert(shown.last() == all@[i as int]@);
        match parse_line(all[i].as_slice()) {
            Some(entry) => {
                upsert(&mut entries, entry);
            },
            None => {},
        }
        i += 1;
    }
    assert(views(all@).take(i as int) == views(all@));
    entries
}

/// Appends the line of `entry`, with its line feed, to `out`.
pub fn push_line(out: &mut Vec<u8>, entry: &DirectorySizesCacheEntry)
    ensures
        final(out)@ == old(out)@ + line_of(entry@) + seq![LF],
{
    push_u64(out, entry.size_bytes);
    out.push(SPACE);
    push_i64(out, entry.info_mtime_seconds);
    out.push(SPACE);
    let name = crate::percent::encode(entry.directory_name.as_slice());
    append(out, name.as_slice());
    out.push(LF);
    assert(out@ =~= old(out)@ + line_of(entry@) + seq![LF]);
}

/// The text of a cache with those of `entries` whose directory is among
/// `present`.
pub fn render_kept(entries: &Vec<DirectorySizesCacheEntry>, present: &Vec<Vec<u8>>) -> (out: Vec<u8>)
    ensures
        out@ == rendered(kept(entries_of(entries@), views(present@))),
{
    let mut out: Vec<u8> = Vec::new();
    let mut i: usize = 0;
    assert(entries_of(entries@).take(0).len() == 0);
    while i < entries.len()
        invariant
            i <= entries@.len(),
            out@ == rendered(kept(entries_of(entries@).take(i as int), views(present@))),
        decreases entries@.len() - i,
    {
        let ghost shown = entries_of(entries@).take(i + 1);
        assert(shown.drop_last() == entries_of(entries@).take(i as int));
        assert(shown.last() == entries@[i as int]@);
        if holds(present, entries[i].directory_name.as_slice()) {
            let ghost so_far = kept(shown.drop_last(), views(present@));
            assert(kept(shown, views(present@)) == so_far.push(shown.last()));
            assert(so_far.push(shown.last()).drop_last() == so_far);
            push_line(&mut out, &entries[i]);
        }
        i += 1;
    }
    assert(entries_of(entries@).take(i as int) == entries_of(entries@));
    out
}

/// The text of the cache of a trash directory after the directory `dir_name`
/// was trashed into it. `existing` is the text of the cache as it was, empty
/// where there was none; `dir_size` is the size of the directory, and
/// `info_mtime` the modification time of its `.trashinfo` file; `present`
/// holds the names that are in `files/` now.
pub fn update_directorysizes_cache(
    existing: &[u8],
    dir_name: &[u8],
    dir_size: u64,
    info_mtime: i64,
    present: &Vec<Vec<u8>>,
) -> (out: Vec<u8>)
    ensures
        out@ == updated_cache(existing@, dir_name@, dir_size, info_mtime, views(present@)),
{
    let mut entries = load(existing);
    let entry = DirectorySizesCacheEntry {
        directory_name: copy_range(dir_name, 0, dir_name.len()),
        size_bytes: dir_size,
        info_mtime_seconds: info_mtime,
    };
    assert(dir_name@.subrange(0, dir_name@.len() as int) == dir_name@);
    upsert(&mut entries, entry);
    render_kept(&entries, present)
}

/// The modification time that the cache records for a `.trashinfo` file:
/// the seconds since 1970 as a signed number, and 0 where the time is not
/// to be had.
pub fn get_trashinfo_mtime(modified_seconds: Option<u64>) -> (mtime: i64)
    ensures
        mtime as int == match modified_seconds {
            Some(seconds) => if seconds <= i64::MAX {
                seconds as int
            } else {
                seconds - 0x1_0000_0000_0000_0000
            },
            None => 0,
        },
{
    match modified_seconds {
        Some(seconds) => {
            if seconds <= 9223372036854775807u64 {
                seconds as i64
            } else {
                (seconds - 9223372036854775808u64) as i64 + i64::MIN
            }
        },
        None => 0,
    }
}

/// The lines of a list of entries, without their line feeds.
pub open spec fn lines_of(entries: Seq<CacheEntry>) -> Seq<Seq<u8>> {
    Seq::new(entries.len(), |i: int| line_of(entries[i]))
}

/// The line of an entry is one line, and reading it gives the entry back.
pub proof fn lemma_line_of(entry: CacheEntry)
    ensures
        !line_of(entry).contains(LF),
        without_cr(line_of(entry)) == line_of(entry),
        parsed_line(line_of(entry)) == Some(entry),
{
    let size = digits(entry.size as nat);
    let mtime = signed_digits(entry.mtime as int);
    let name = encoded(entry.name);
    let line = line_of(entry);
    lemma_digits(entry.size as nat);
    lemma_signed_digits(entry.mtime as int);
    lemma_encoded_bytes(entry.name);
    lemma_decoded_encoded(entry.name);
    if entry.mtime < 0 {
        lemma_digits((-(entry.mtime as int)) as nat);
    } else {
        lemma_digits(entry.mtime as nat);
    }
    assert forall|i: int| 0 <= i < mtime.len() implies is_digit(#[trigger] mtime[i]) || mtime[i]
        == MINUS by {
        if entry.mtime < 0 && i > 0 {
            assert(mtime[i] == digits((-(entry.mtime as int)) as nat)[i - 1]);
        }
    }
    let a = size.len() as int;
    let b = mtime.len() as int;
    assert forall|i: int| 0 <= i < line.len() implies line[i] != LF && line[i] != CR && (i < a
        ==> line[i] == size[i]) && (a < i <= a + b ==> line[i] == mtime[i - a - 1]) by {
        if i < a {
            assert(line[i] == size[i]);
            assert(is_digit(size[i]));
        } else if i == a {
        } else if i <= a + b {
            assert(line[i] == mtime[i - a - 1]);
        } else if i == a + b + 1 {
        } else {
            assert(line[i] == name[i - a - b - 2]);
        }
    }
    if line.contains(LF) {
        let i = choose|i: int| 0 <= i < line.len() && line[i] == LF;
        assert(line[i] != LF);
    }
    assert(line[a] == SPACE);
    assert forall|i: int| 0 <= i < a implies line[i] != SPACE by {
        assert(is_digit(size[i]));
    }
    lemma_first_index(line, SPACE, a);
    assert(line.take(a) =~= size);
    let rest = line.skip(a + 1);
    assert(rest =~= mtime + seq![SPACE] + name);
    assert(rest[b] == SPACE);
    assert forall|i: int| 0 <= i < b implies rest[i] != SPACE by {
        assert(rest[i] == mtime[i]);
    }
    lemma_first_index(rest, SPACE, b);
    assert(rest.take(b) =~= mtime);
    assert(rest.skip(b + 1) =~= name);
}

/// The text of a list that begins with `first`: its line, then the text of
/// the others.
pub proof fn lemma_rendered_first(first: CacheEntry, others: Seq<CacheEntry>)
    ensures
        rendered(seq![first] + others) == line_of(first) + seq![LF] + rendered(others),
    decreases others.len(),
{
    let all = seq![first] + others;
    if others.len() == 0 {
        assert(all.drop_last() =~= Seq::<CacheEntry>::empty());
        assert(rendered(all.drop_last()) =~= Seq::<u8>::empty());
        assert(all.last() == first);
        assert(rendered(others) =~= Seq::<u8>::empty());
        assert(rendered(all) =~= line_of(first) + seq![LF]);
    } else {
        lemma_rendered_first(first, others.drop_last());
        assert(all.drop_last() =~= seq![first] + others.drop_last());
        assert(all.last() == others.last());
        assert(rendered(all) =~= line_of(first) + seq![LF] + rendered(others));
    }
}

/// The lines of the text of a list are the lines of its entries.
pub proof fn lemma_lines_rendered(entries: Seq<CacheEntry>)
    ensures
        lines(rendered(entries)) == lines_of(entries),
    decreases entries.len(),
{
    if entries.len() == 0 {
        assert(lines(rendered(entries)) =~= lines_of(entries));
    } else {
        let first = entries[0];
        let others = entries.skip(1);
        assert(entries =~= seq![first] + others);
        lemma_rendered_first(first, others);
        lemma_line_of(first);
        lemma_lines_first(line_of(first), rendered(others));
        lemma_lines_rendered(others);
        assert(seq![line_of(first)] + lines_of(others) =~= lines_of(entries));
    }
}

/// Reading the lines of entries with distinct names gives the entries back.
pub proof fn lemma_loaded_lines_of(entries: Seq<CacheEntry>)
    requires
        distinct_names(entries),
    ensures
        loaded(lines_of(entries)) == entries,
    decreases entries.len(),
{
    if entries.len() > 0 {
        let front = entries.drop_last();
        let last = entries.last();
        assert(distinct_names(front)) by {
            assert forall|i: int, j: int| 0 <= i < j < front.len() implies (#[trigger] front[i]).name
                != (#[trigger] front[j]).name by {
                assert(entries[i].name != entries[j].name);
            }
        }
        lemma_loaded_lines_of(front);
        lemma_line_of(last);
        assert(lines_of(entries).drop_last() =~= lines_of(front));
        assert(lines_of(entries).last() == line_of(last));
        assert(!has_name(front, last.name)) by {
            if has_name(front, last.name) {
                let i = choose|i: int| 0 <= i < front.len() && (#[trigger] front[i]).name == last.name;
                assert(entries[i].name != entries[entries.len() - 1].name);
            }
        }
        assert(front.push(last) =~= entries);
    } else {
        assert(loaded(lines_of(entries)) =~= entries);
    }
}

/// A cache that was written reads as it was written: the same entries, in
/// the same order.
pub proof fn lemma_load_rendered(entries: Seq<CacheEntry>)
    requires
        distinct_names(entries),
    ensures
        loaded(lines(rendered(entries))) == entries,
{
    lemma_lines_rendered(entries);
    lemma_loaded_lines_of(entries);
}

/// What is kept was there before, is present, and stays in its order: each
/// kept entry is an entry of a directory in `present`, and each entry of such
/// a directory is kept.
pub proof fn lemma_kept(entries: Seq<CacheEntry>, present: Seq<Seq<u8>>)
    ensures
        forall|i: int|
            0 <= i < kept(entries, present).len() ==> present.contains(
                (#[trigger] kept(entries, present)[i]).name,
            ) && entries.contains(kept(entries, present)[i]),
        forall|i: int|
            0 <= i < entries.len() && present.contains((#[trigger] entries[i]).name) ==> kept(
                entries,
                present,
            ).contains(entries[i]),
        distinct_names(entries) ==> distinct_names(kept(entries, present)),
        kept(entries, present).len() <= entries.len(),
    decreases entries.len(),
{
    if entries.len() > 0 {
        let front = entries.drop_last();
        let last = entries.last();
        let result = kept(entries, present);
        let before = kept(front, present);
        lemma_kept(front, present);
        assert forall|i: int| 0 <= i < result.len() implies present.contains(
            (#[trigger] result[i]).name,
        ) && entries.contains(result[i]) by {
            if i < before.len() {
                assert(result[i] == before[i]);
                let k = choose|k: int| 0 <= k < front.len() && front[k] == before[i];
                assert(entries[k] == before[i]);
            } else {
                assert(result[i] == last);
                assert(entries[entries.len() - 1] == last);
            }
        }
        assert forall|i: int|
            0 <= i < entries.len() && present.contains(
                (#[trigger] entries[i]).name,
            ) implies result.contains(entries[i]) by {
            if i < front.len() {
                assert(front[i] == entries[i]);
                assert(present.contains(front[i].name));
                let k = choose|k: int| 0 <= k < before.len() && before[k] == front[i];
                assert(result[k] == entries[i]);
            } else {
                assert(result[result.len() - 1] == last);
            }
        }
        if distinct_names(entries) {
            assert(distinct_names(front)) by {
                assert forall|i: int, j: int| 0 <= i < j < front.len() implies (
                #[trigger] front[i]).name != (#[trigger] front[j]).name by {
                    assert(entries[i].name != entries[j].name);
                }
            }
            assert forall|i: int, j: int| 0 <= i < j < result.len() implies (
            #[trigger] result[i]).name != (#[trigger] result[j]).name by {
                if j < before.len() {
                    assert(before[i].name != before[j].name);
                } else {
                    assert(result[i] == before[i]);
                    let k = choose|k: int| 0 <= k < front.len() && front[k] == before[i];
                    assert(entries[k].name != entries[entries.len() - 1].name);
                }
            }
        }
    }
}

/// What putting an entry among others does: it is there afterwards, no other
/// name came or went, and names stay distinct.
pub proof fn lemma_upserted(entries: Seq<CacheEntry>, entry: CacheEntry)
    requires
        distinct_names(entries),
    ensures
        distinct_names(upserted(entries, entry)),
        upserted(entries, entry).contains(entry),
        forall|name: Seq<u8>|
            has_name(upserted(entries, entry), name) <==> name == entry.name || has_name(
                entries,
                name,
            ),
{
    let after = upserted(entries, entry);
    if has_name(entries, entry.name) {
        lemma_first_named(entries, entry.name);
        let at = first_named(entries, entry.name);
        assert(after[at] == entry);
        assert forall|x: int, y: int| 0 <= x < y < after.len() implies (#[trigger] after[x]).name != (
        #[trigger] after[y]).name by {
            assert(entries[x].name != entries[y].name);
        }
        assert forall|name: Seq<u8>|
            has_name(after, name) <==> name == entry.name || has_name(entries, name) by {
            if has_name(after, name) {
                let i = choose|i: int| 0 <= i < after.len() && (#[trigger] after[i]).name == name;
                if i != at {
                    assert(entries[i].name == name);
                }
            }
            if name == entry.name {
                assert(after[at].name == name);
            } else if has_name(entries, name) {
                let i = choose|i: int| 0 <= i < entries.len() && (#[trigger] entries[i]).name == name;
                assert(after[i].name == name);
            }
        }
    } else {
        assert(after[after.len() - 1] == entry);
        assert forall|x: int, y: int| 0 <= x < y < after.len() implies (#[trigger] after[x]).name != (
        #[trigger] after[y]).name by {
            if y < entries.len() {
                assert(entries[x].name != entries[y].name);
            } else {
                assert(entries[x].name == after[x].name);
            }
        }
        assert forall|name: Seq<u8>|
            has_name(after, name) <==> name == entry.name || has_name(entries, name) by {
            if has_name(after, name) {
                let i = choose|i: int| 0 <= i < after.len() && (#[trigger] after[i]).name == name;
                if i < entries.len() {
                    assert(entries[i].name == name);
                }
            }
            if name == entry.name {
                assert(after[after.len() - 1].name == name);
            } else if has_name(entries, name) {
                let i = choose|i: int| 0 <= i < entries.len() && (#[trigger] entries[i]).name == name;
                assert(after[i].name == name);
            }
        }
    }
}

/// The entries that a cache gives have distinct names.
pub proof fn lemma_loaded_distinct(lines: Seq<Seq<u8>>)
    ensures
        distinct_names(loaded(lines)),
    decreases lines.len(),
{
    if lines.len() > 0 {
        lemma_loaded_distinct(lines.drop_last());
        match parsed_line(lines.last()) {
            Some(entry) => {
                lemma_upserted(loaded(lines.drop_last()), entry);
            },
            None => {},
        }
    }
}

/// The entries of the cache after an update.
pub open spec fn updated_entries(
    existing: Seq<u8>,
    name: Seq<u8>,
    size: u64,
    mtime: i64,
    present: Seq<Seq<u8>>,
) -> Seq<CacheEntry> {
    kept(upserted(loaded(lines(existing)), CacheEntry { name, size, mtime }), present)
}

/// What an update leaves in the cache, as a later reader finds it. The cache
/// reads as the kept entries. A directory that is no longer in `files/` has
/// no line, whatever the cache held before. The directory that was trashed
/// has a line with its size and time where it is in `files/`, and a directory
/// that is there has a line if and only if it is the one that was trashed or
/// had a line before.
pub proof fn lemma_update(
    existing: Seq<u8>,
    name: Seq<u8>,
    size: u64,
    mtime: i64,
    present: Seq<Seq<u8>>,
)
    ensures
        loaded(lines(updated_cache(existing, name, size, mtime, present))) == updated_entries(
            existing,
            name,
            size,
            mtime,
            present,
        ),
        forall|gone: Seq<u8>|
            !present.contains(gone) ==> !has_name(
                #[trigger] loaded(lines(updated_cache(existing, name, size, mtime, present))),
                gone,
            ),
        present.contains(name) ==> updated_entries(existing, name, size, mtime, present).contains(
            CacheEntry { name, size, mtime },
        ),
        forall|other: Seq<u8>|
            present.contains(other) ==> (has_name(
                updated_entries(existing, name, size, mtime, present),
                other,
            ) <==> other == name || has_name(loaded(lines(existing)), other)),
{
    let entry = CacheEntry { name, size, mtime };
    let before = loaded(lines(existing));
    let merged = upserted(before, entry);
    let result = kept(merged, present);
    lemma_loaded_distinct(lines(existing));
    lemma_upserted(before, entry);
    lemma_kept(merged, present);
    lemma_load_rendered(result);
    assert forall|gone: Seq<u8>| !present.contains(gone) implies !has_name(result, gone) by {
        if has_name(result, gone) {
            let i = choose|i: int| 0 <= i < result.len() && (#[trigger] result[i]).name == gone;
            assert(present.contains(result[i].name));
        }
    }
    if present.contains(name) {
        let i = choose|i: int| 0 <= i < merged.len() && merged[i] == entry;
        assert(present.contains(merged[i].name));
    }
    assert forall|other: Seq<u8>| present.contains(other) implies (has_name(result, other) <==> other
        == name || has_name(before, other)) by {
        if has_name(result, other) {
            let i = choose|i: int| 0 <= i < result.len() && (#[trigger] result[i]).name == other;
            assert(merged.contains(result[i]));
            let k = choose|k: int| 0 <= k < merged.len() && merged[k] == result[i];
            assert(merged[k].name == other);
            assert(has_name(merged, other));
        }
        if other == name || has_name(before, other) {
            assert(has_name(merged, other));
            let k = choose|k: int| 0 <= k < merged.len() && (#[trigger] merged[k]).name == other;
            assert(present.contains(merged[k].name));
            assert(result.contains(merged[k]));
            let i = choose|i: int| 0 <= i < result.len() && result[i] == merged[k];
            assert(result[i].name == other);
        }
    }
}

} // verus!
