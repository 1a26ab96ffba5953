//! The `.trashinfo` file of a trashed item: where the item came from and when
//! it was trashed.
//!
//! ```text
//! [Trash Info]
//! Path=<percent-encoded path>
//! DeletionDate=<YYYY-MM-DDTHH:MM:SS>
//! ```

use vstd::prelude::*;
use crate::bytes::{append, ascii, copy_range, literal, starts_with, CR, LF};
use crate::decimal::{all_digits, is_digit};
use crate::lines::{lemma_lines_first, lines, split_lines, views, without_cr};
use crate::paths::{
    is_absolute, join, joined, lemma_relative_joins_back, parent_or_root, parent_or_root_of,
    relative_to, strip_base,
};
use crate::percent::{decoded, encoded};

verus! {

/// What a `.trashinfo` file records.
#[derive(Debug, Clone, PartialEq, Eq)]
pub struct TrashInfoRecord {
    /// The path that the item had, absolute.
    pub original_path: Vec<u8>,
    /// The local time at which it was trashed, as the file gives it.
    pub deletion_date: Vec<u8>,
}

/// The first line of every `.trashinfo` file.
pub open spec fn header() -> Seq<u8> {
    ascii("[Trash Info]"@)
}

/// What the line of the original path begins with.
pub open spec fn path_key() -> Seq<u8> {
    ascii("Path="@)
}

/// What the line of the deletion date begins with.
pub open spec fn date_key() -> Seq<u8> {
    ascii("DeletionDate="@)
}

/// What a file name ends with in `info/`.
pub open spec fn info_suffix() -> Seq<u8> {
    ascii(".trashinfo"@)
}

/// What the name of a file ends with while it is being written.
pub open spec fn temp_suffix() -> Seq<u8> {
    ascii(".tmp"@)
}

/// The first line of every `.trashinfo` file.
pub(crate) fn header_bytes() -> (out: &'static [u8])
    ensures
        out@ == header(),
{
    proof {
        reveal_strlit("[Trash Info]");
    }
    literal("[Trash Info]")
}

/// What the line of the original path begins with.
pub(crate) fn path_key_bytes() -> (out: &'static [u8])
    ensures
        out@ == path_key(),
{
    proof {
        reveal_strlit("Path=");
    }
    literal("Path=")
}

/// What the line of the deletion date begins with.
pub(crate) fn date_key_bytes() -> (out: &'static [u8])
    ensures
        out@ == date_key(),
{
    proof {
        reveal_strlit("DeletionDate=");
    }
    literal("DeletionDate=")
}

/// What a file name ends with in `info/`.
pub(crate) fn info_suffix_bytes() -> (out: &'static [u8])
    ensures
        out@ == info_suffix(),
{
    proof {
        reveal_strlit(".trashinfo");
    }
    literal(".trashinfo")
}

/// What the name of a file ends with while it is being written.
pub(crate) fn temp_suffix_bytes() -> (out: &'static [u8])
    ensures
        out@ == temp_suffix(),
{
    proof {
        reveal_strlit(".tmp");
    }
    literal(".tmp")
}

/// Whether `text` writes a year: four digits, or a sign and four digits or
/// more.
pub open spec fn is_year(text: Seq<u8>) -> bool {
    ||| text.len() == 4 && all_digits(text)
    ||| text.len() >= 5 && (text[0] == 43 || text[0] == 45) && all_digits(text.skip(1))
}

/// Whether `text` writes a month, a day and a time of day after a year:
/// `-MM-DDTHH:MM:SS`, where each letter is a digit.
pub open spec fn is_day_and_time(text: Seq<u8>) -> bool {
    &&& text.len() == 15
    &&& text[0] == 45 && is_digit(text[1]) && is_digit(text[2])
    &&& text[3] == 45 && is_digit(text[4]) && is_digit(text[5])
    &&& text[6] == 84 && is_digit(text[7]) && is_digit(text[8])
    &&& text[9] == 58 && is_digit(text[10]) && is_digit(text[11])
    &&& text[12] == 58 && is_digit(text[13]) && is_digit(text[14])
}

/// Whether `text` has the form of a deletion date: `YYYY-MM-DDTHH:MM:SS`,
/// with a longer year, after a sign, where four digits do not hold it.
pub open spec fn is_stamp(text: Seq<u8>) -> bool {
    &&& text.len() >= 19
    &&& is_year(text.take(text.len() - 15))
    &&& is_day_and_time(text.skip(text.len() - 15))
}

/// Asks `chrono` for the local time, `Local::now`, and has it written with
/// the pattern `%Y-%m-%dT%H:%M:%S`. Trusted: whatever the clock and the time
/// zone say, the text has the form that `is_stamp` describes. Which time it
/// names is not claimed. `Local::now` panics where the system clock stands
/// before 1970 or the system's time zone data cannot be used.
#[verifier::external_body]
pub(crate) fn local_timestamp() -> (stamp: Vec<u8>)
    ensures
        is_stamp(stamp@),
{
    chrono::Local::now().format("%Y-%m-%dT%H:%M:%S").to_string().into_bytes()
}

/// The path that the file stores for `original`: in the home trash the path
/// as seen from the directory that holds the trash directory, where there is
/// such a form; else, and in every other trash directory, `original` itself.
pub open spec fn stored_path(original: Seq<u8>, trash_directory: Seq<u8>, is_home_trash: bool) -> Seq<
    u8,
> {
    if is_home_trash {
        match relative_to(original, parent_or_root(trash_directory)) {
            Some(rest) => rest,
            None => original,
        }
    } else {
        original
    }
}

/// The text of a `.trashinfo` file that stores `stored` and `date`.
pub open spec fn trashinfo_text(stored: Seq<u8>, date: Seq<u8>) -> Seq<u8> {
    header() + seq![LF] + (path_key() + encoded(stored)) + seq![LF] + (date_key() + date) + seq![LF]
}

/// The text of the `.trashinfo` file for an item that had the path
/// `original_path` and was trashed at `deletion_date`.
pub fn encode_at(
    original_path: &[u8],
    trash_directory: &[u8],
    is_home_trash: bool,
    deletion_date: &[u8],
) -> (out: Vec<u8>)
    ensures
        out@ == trashinfo_text(
            stored_path(original_path@, trash_directory@, is_home_trash),
            deletion_date@,
        ),
{
    let stored: Vec<u8> = if is_home_trash {
        let base = parent_or_root_of(trash_directory);
        match strip_base(original_path, base.as_slice()) {
            Some(rest) => rest,
            None => copy_range(original_path, 0, original_path.len()),
        }
    } else {
        copy_range(original_path, 0, original_path.len())
    };
    assert(original_path@.subrange(0, original_path@.len() as int) == original_path@);
    assert(stored@ == stored_path(original_path@, trash_directory@, is_home_trash));
    let escaped = crate::percent::encode(stored.as_slice());
    let mut out: Vec<u8> = Vec::new();
    append(&mut out, header_bytes());
    out.push(LF);
    append(&mut out, path_key_bytes());
    append(&mut out, escaped.as_slice());
    out.push(LF);
    append(&mut out, date_key_bytes());
    append(&mut out, deletion_date);
    out.push(LF);
    assert(out@ == trashinfo_text(stored@, deletion_date@));
    out
}

/// The text of the `.trashinfo` file for an item that had the path
/// `original_path` and is trashed now.
pub fn encode(original_path: &[u8], trash_directory: &[u8], is_home_trash: bool) -> (out: Vec<u8>)
    ensures
        exists|date: Seq<u8>|
            is_stamp(date) && out@ == #[trigger] trashinfo_text(
                stored_path(original_path@, trash_directory@, is_home_trash),
                date,
            ),
{
    let stamp = local_timestamp();
    encode_at(original_path, trash_directory, is_home_trash, stamp.as_slice())
}

/// A `.trashinfo` file that is to be written: the text goes to `temp_path`,
/// which must not exist yet, and that file is then renamed to `info_path`.
#[derive(Debug, Clone, PartialEq, Eq)]
pub struct InfoWrite {
    pub temp_path: Vec<u8>,
    pub info_path: Vec<u8>,
    pub content: Vec<u8>,
}

/// What is to be written for an item that had the path `original_path` and
/// is trashed now into `trash_path`, with its `.trashinfo` file at
/// `info_path`. The stored path is relative where `trash_path` is the home
/// trash `home_trash`. The file is written under its name with `.tmp` after
/// it and renamed when it is complete.
pub fn create_atomic_trashinfo(
    info_path: &[u8],
    original_path: &[u8],
    trash_path: &[u8],
    home_trash: &[u8],
) -> (out: InfoWrite)
    ensures
        out.info_path@ == info_path@,
        out.temp_path@ == info_path@ + temp_suffix(),
        exists|date: Seq<u8>|
            #[trigger] is_stamp(date) && out.content@ == trashinfo_text(
                stored_path(original_path@, trash_path@, trash_path@ == home_trash@),
                date,
            ),
{
    let is_home_trash = crate::bytes::equal(trash_path, home_trash);
    let content = encode(original_path, trash_path, is_home_trash);
    proof {
        let date = choose|date: Seq<u8>|
            is_stamp(date) && content@ == #[trigger] trashinfo_text(
                stored_path(original_path@, trash_path@, is_home_trash),
                date,
            );
        assert(is_stamp(date));
    }
    let mut temp_path: Vec<u8> = Vec::new();
    append(&mut temp_path, info_path);
    append(&mut temp_path, temp_suffix_bytes());
    assert(info_path@.subrange(0, info_path@.len() as int) == info_path@);
    InfoWrite { temp_path, info_path: copy_range(info_path, 0, info_path.len()), content }
}

/// What follows `key` in the last of `lines` that begins with it.
pub open spec fn last_value(lines: Seq<Seq<u8>>, key: Seq<u8>) -> Option<Seq<u8>>
    decreases lines.len(),
{
    if lines.len() == 0 {
        None
    } else if key.is_prefix_of(lines.last()) {
        Some(lines.last().skip(key.len() as int))
    } else {
        last_value(lines.drop_last(), key)
    }
}

/// The path that a stored path stands for: itself where it is absolute, else
/// the path under the directory that holds the trash directory.
pub open spec fn resolved(stored: Seq<u8>, trash_directory: Seq<u8>) -> Seq<u8> {
    if is_absolute(stored) {
        stored
    } else {
        joined(parent_or_root(trash_directory), stored)
    }
}

/// The original path that `content` records: its last `Path=` line decoded
/// and resolved, or nothing where it has no such line.
pub open spec fn decoded_path(content: Seq<u8>, trash_directory: Seq<u8>) -> Seq<u8> {
    match last_value(lines(content), path_key()) {
        Some(value) => resolved(decoded(value), trash_directory),
        None => Seq::empty(),
    }
}

/// The deletion date that `content` records: what its last `DeletionDate=`
/// line gives, or nothing where it has no such line.
pub open spec fn decoded_date(content: Seq<u8>) -> Seq<u8> {
    match last_value(lines(content), date_key()) {
        Some(value) => value,
        None => Seq::empty(),
    }
}

/// What follows `key` in the last of `lines` that begins with it.
fn find_last_value(lines: &Vec<Vec<u8>>, key: &[u8]) -> (out: Option<Vec<u8>>)
    ensures
        match out {
            Some(value) => last_value(views(lines@), key@) == Some(value@),
            None => last_value(views(lines@), key@) is None,
        },
{
    let mut i: usize = lines.len();
    assert(views(lines@).take(i as int) == views(lines@));
    while i > 0
        invariant
            i <= lines@.len(),
            last_value(views(lines@), key@) == last_value(views(lines@).take(i as int), key@),
        decreases i,
    {
        let ghost shown = views(lines@).take(i as int);
        i -= 1;
        assert(shown.last() == lines@[i as int]@);
        assert(shown.drop_last() == views(lines@).take(i as int));
        let line = lines[i].as_slice();
        if starts_with(line, key) {
            return Some(copy_range(line, key.len(), line.len()));
        }
    }
    assert(views(lines@).take(0).len() == 0);
    None
}

/// Reads the text of a `.trashinfo` file found in `trash_directory`. Lines
/// that are neither the path nor the date are passed over, and a field
/// without its line is empty.
pub fn decode(content: &[u8], trash_directory: &[u8]) -> (record: TrashInfoRecord)
    ensures
        record.original_path@ == decoded_path(content@, trash_directory@),
        record.deletion_date@ == decoded_date(content@),
{
    let lines = split_lines(content);
    let original_path = match find_last_value(&lines, path_key_bytes()) {
        Some(value) => {
            let stored = crate::percent::decode(value.as_slice());
            if stored.len() > 0 && stored[0] == crate::bytes::SLASH {
                stored
            } else {
                let base = parent_or_root_of(trash_directory);
                join(base.as_slice(), stored.as_slice())
            }
        },
        None => Vec::new(),
    };
    let deletion_date = match find_last_value(&lines, date_key_bytes()) {
        Some(value) => value,
        None => Vec::new(),
    };
    TrashInfoRecord { original_path, deletion_date }
}

/// What the three fixed texts hold, byte by byte.
pub proof fn lemma_fixed_texts()
    ensures
        header() == seq![91u8, 84, 114, 97, 115, 104, 32, 73, 110, 102, 111, 93],
        path_key() == seq![80u8, 97, 116, 104, 61],
        date_key() == seq![68u8, 101, 108, 101, 116, 105, 111, 110, 68, 97, 116, 101, 61],
{
    reveal_strlit("[Trash Info]");
    reveal_strlit("Path=");
    reveal_strlit("DeletionDate=");
    assert(header() =~= seq![91u8, 84, 114, 97, 115, 104, 32, 73, 110, 102, 111, 93]);
    assert(path_key() =~= seq![80u8, 97, 116, 104, 61]);
    assert(date_key() =~= seq![68u8, 101, 108, 101, 116, 105, 111, 110, 68, 97, 116, 101, 61]);
}

/// The lines of a `.trashinfo` text whose date holds no line feed.
pub proof fn lemma_trashinfo_lines(stored: Seq<u8>, date: Seq<u8>)
    requires
        !date.contains(LF),
    ensures
        lines(trashinfo_text(stored, date)) == seq![
            header(),
            path_key() + encoded(stored),
            date_key() + without_cr(date),
        ],
{
    lemma_fixed_texts();
    crate::percent::lemma_encoded_bytes(stored);
    let first = header();
    let second = path_key() + encoded(stored);
    let third = date_key() + date;
    assert(!first.contains(LF)) by {
        if first.contains(LF) {
            let i = choose|i: int| 0 <= i < first.len() && first[i] == LF;
            assert(first[i] != LF);
        }
    }
    assert(!second.contains(LF) && without_cr(second) == second) by {
        assert forall|i: int| 0 <= i < second.len() implies second[i] != LF && second[i] != CR by {
            if i >= path_key().len() {
                assert(second[i] == encoded(stored)[i - path_key().len()]);
            }
        }
        if second.contains(LF) {
            let i = choose|i: int| 0 <= i < second.len() && second[i] == LF;
            assert(second[i] != LF);
        }
    }
    assert(!third.contains(LF) && without_cr(third) == date_key() + without_cr(date)) by {
        assert forall|i: int| 0 <= i < third.len() implies third[i] != LF by {
            if i >= date_key().len() {
                assert(third[i] == date[i - date_key().len()]);
                assert(date.contains(date[i - date_key().len()]));
            }
        }
        if third.contains(LF) {
            let i = choose|i: int| 0 <= i < third.len() && third[i] == LF;
            assert(third[i] != LF);
        }
        if date.len() > 0 {
            assert(third.last() == date.last());
            if date.last() == CR {
                assert(third.drop_last() =~= date_key() + date.drop_last());
            }
        }
    }
    let tail2 = third + seq![LF];
    let tail1 = second + seq![LF] + tail2;
    assert(trashinfo_text(stored, date) =~= first + seq![LF] + tail1);
    lemma_lines_first(first, tail1);
    lemma_lines_first(second, tail2);
    assert(tail2 =~= third + seq![LF] + Seq::<u8>::empty());
    lemma_lines_first(third, Seq::empty());
    assert(lines(Seq::<u8>::empty()) =~= Seq::<Seq<u8>>::empty());
    assert(lines(tail2) =~= seq![without_cr(third)]);
    assert(lines(tail1) =~= seq![second, without_cr(third)]);
    assert(lines(trashinfo_text(stored, date)) =~= seq![first, second, without_cr(third)]);
}

/// Reading gives back what was written: the original path as it was, be it
/// stored in its relative form or not, whatever bytes it holds; and the date,
/// where it is one line.
pub proof fn lemma_decode_encode(
    original: Seq<u8>,
    trash_directory: Seq<u8>,
    is_home_trash: bool,
    date: Seq<u8>,
)
    requires
        is_absolute(original),
        !date.contains(LF),
    ensures
        decoded_path(
            trashinfo_text(stored_path(original, trash_directory, is_home_trash), date),
            trash_directory,
        ) == original,
        decoded_date(trashinfo_text(stored_path(original, trash_directory, is_home_trash), date))
            == without_cr(date),
{
    let stored = stored_path(original, trash_directory, is_home_trash);
    let text = trashinfo_text(stored, date);
    lemma_trashinfo_lines(stored, date);
    lemma_fixed_texts();
    crate::percent::lemma_decoded_encoded(stored);
    let all = lines(text);
    let second = path_key() + encoded(stored);
    let third = date_key() + without_cr(date);
    assert(all.last() == third);
    assert(all.drop_last() =~= seq![header(), second]);
    assert(all.drop_last().last() == second);
    assert(!path_key().is_prefix_of(third)) by {
        if path_key().is_prefix_of(third) {
            assert(third.subrange(0, 5)[0] == path_key()[0]);
        }
    }
    assert(path_key().is_prefix_of(second)) by {
        assert(second.subrange(0, path_key().len() as int) =~= path_key());
    }
    assert(second.skip(path_key().len() as int) =~= encoded(stored));
    assert(last_value(all.drop_last(), path_key()) == Some(encoded(stored)));
    assert(last_value(all, path_key()) == Some(encoded(stored)));
    assert(date_key().is_prefix_of(third)) by {
        assert(third.subrange(0, date_key().len() as int) =~= date_key());
    }
    assert(third.skip(date_key().len() as int) =~= without_cr(date));
    if is_home_trash && relative_to(original, parent_or_root(trash_directory)) is Some {
        lemma_relative_joins_back(original, parent_or_root(trash_directory));
    }
}

/// What `encode` writes, `decode` reads: the path as it was and the date as
/// it was stamped.
pub proof fn lemma_decode_encode_stamped(
    original: Seq<u8>,
    trash_directory: Seq<u8>,
    is_home_trash: bool,
    date: Seq<u8>,
)
    requires
        is_absolute(original),
        is_stamp(date),
    ensures
        decoded_path(
            trashinfo_text(stored_path(original, trash_directory, is_home_trash), date),
            trash_directory,
        ) == original,
        decoded_date(trashinfo_text(stored_path(original, trash_directory, is_home_trash), date))
            == date,
{
    lemma_stamp_is_one_line(date);
    lemma_decode_encode(original, trash_directory, is_home_trash, date);
}

/// A deletion date: the first second of the year 2000.
pub open spec fn sample_stamp() -> Seq<u8> {
    ascii("2000-01-01T00:00:00"@)
}

/// There are deletion dates.
pub proof fn lemma_sample_stamp()
    ensures
        is_stamp(sample_stamp()),
{
    reveal_strlit("2000-01-01T00:00:00");
}

/// A deletion date as `chrono` writes it is one line.
pub proof fn lemma_stamp_is_one_line(date: Seq<u8>)
    requires
        is_stamp(date),
    ensures
        !date.contains(LF),
        without_cr(date) == date,
{
    let cut = date.len() - 15;
    let year = date.take(cut);
    let rest = date.skip(cut);
    if date.contains(LF) {
        let i = choose|i: int| 0 <= i < date.len() && date[i] == LF;
        if i < cut {
            assert(year[i] == date[i]);
            if i > 0 || year.len() == 4 {
                if year.len() == 4 {
                    assert(is_digit(year[i]));
                } else {
                    assert(year.skip(1)[i - 1] == year[i]);
                    assert(is_digit(year.skip(1)[i - 1]));
                }
            }
        } else {
            assert(rest[i - cut] == date[i]);
        }
    }
    assert(rest[14] == date[date.len() - 1]);
}

} // verus!
