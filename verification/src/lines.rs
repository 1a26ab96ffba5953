//! Lines and fields of a text file.

use vstd::prelude::*;
use crate::bytes::{copy_range, find_from, first_index, lemma_first_index, CR, LF};

verus! {

/// The views of a list of byte strings.
pub open spec fn views(items: Seq<Vec<u8>>) -> Seq<Seq<u8>> {
    Seq::new(items.len(), |i: int| items[i]@)
}

/// A line without the carriage return that stood before its line feed.
pub open spec fn without_cr(line: Seq<u8>) -> Seq<u8> {
    if line.len() > 0 && line.last() == CR {
        line.drop_last()
    } else {
        line
    }
}

/// The lines of a text. A line ends at a line feed, and a carriage return
/// just before that line feed is not part of it. What follows the last line
/// feed is a line too, unless it is empty.
pub open spec fn lines(text: Seq<u8>) -> Seq<Seq<u8>>
    decreases text.len(),
{
    let end = first_index(text, LF);
    if text.len() == 0 {
        Seq::empty()
    } else if 0 <= end < text.len() {
        seq![without_cr(text.take(end))] + lines(text.skip(end + 1))
    } else {
        seq![text]
    }
}

/// The lines of a text.
pub fn split_lines(text: &[u8]) -> (out: Vec<Vec<u8>>)
    ensures
        views(out@) == lines(text@),
{
    let mut out: Vec<Vec<u8>> = Vec::new();
    let mut start: usize = 0;
    assert(text@.skip(0) == text@);
    while start < text.len()
        invariant
            start <= text@.len(),
            lines(text@) == views(out@) + lines(text@.skip(start as int)),
        decreases text@.len() - start,
    {
        let ghost rest = text@.skip(start as int);
        let ghost before = views(out@);
        let end = find_from(text, LF, start);
        if end == text.len() {
            let line = copy_range(text, start, end);
            assert(line@ == rest);
            out.push(line);
            assert(views(out@) == before.push(rest));
            assert(text@.skip(end as int).len() == 0);
            start = end;
        } else {
            let stop = if end > start && text[end - 1] == CR {
                end - 1
            } else {
                end
            };
            let line = copy_range(text, start, stop);
            assert(rest.take(end - start) == text@.subrange(start as int, end as int));
            assert(line@ == without_cr(rest.take(end - start)));
            assert(rest.skip(end - start + 1) == text@.skip(end + 1));
            out.push(line);
            assert(views(out@) == before.push(line@));
            start = end + 1;
        }
    }
    assert(text@.skip(start as int).len() == 0);
    out
}

/// The lines of a text that begins with a line and its line feed: that line,
/// then the lines of the rest.
pub proof fn lemma_lines_first(line: Seq<u8>, rest: Seq<u8>)
    requires
        !line.contains(LF),
    ensures
        lines(line + seq![LF] + rest) == seq![without_cr(line)] + lines(rest),
{
    let text = line + seq![LF] + rest;
    assert forall|i: int| 0 <= i < line.len() implies text[i] != LF by {
        assert(text[i] == line[i]);
        assert(line.contains(line[i]));
    }
    assert(text[line.len() as int] == LF);
    lemma_first_index(text, LF, line.len() as int);
    assert(text.take(line.len() as int) == line);
    assert(text.skip(line.len() as int + 1) == rest);
}

/// White space between the fields of a line: the space and the ASCII control
/// characters from tab to carriage return.
pub open spec fn is_blank(byte: u8) -> bool {
    byte == 32 || 9 <= byte <= 13
}

/// The length of the field that `text` begins with.
pub open spec fn field_len(text: Seq<u8>) -> int
    decreases text.len(),
{
    if text.len() == 0 || is_blank(text[0]) {
        0
    } else {
        1 + field_len(text.skip(1))
    }
}

/// The fields of a line: its longest stretches without white space.
pub open spec fn fields(text: Seq<u8>) -> Seq<Seq<u8>>
    decreases text.len(),
{
    if text.len() == 0 {
        Seq::empty()
    } else if is_blank(text[0]) {
        fields(text.skip(1))
    } else if 0 < field_len(text) <= text.len() {
        seq![text.take(field_len(text))] + fields(text.skip(field_len(text)))
    } else {
        Seq::empty()
    }
}

/// The fields of a line.
pub fn split_fields(text: &[u8]) -> (out: Vec<Vec<u8>>)
    ensures
        views(out@) == fields(text@),
{
    let mut out: Vec<Vec<u8>> = Vec::new();
    let mut i: usize = 0;
    assert(text@.skip(0) == text@);
    while i < text.len()
        invariant
            i <= text@.len(),
            fields(text@) == views(out@) + fields(text@.skip(i as int)),
        decreases text@.len() - i,
    {
        let ghost rest = text@.skip(i as int);
        let ghost before = views(out@);
        assert(rest[0] == text@[i as int]);
        if is_blank_byte(text[i]) {
            assert(rest.skip(1) == text@.skip(i + 1));
            i += 1;
        } else {
            let start = i;
            i += 1;
            assert(rest.skip(1) == text@.skip(i as int));
            while i < text.len() && !is_blank_byte(text[i])
                invariant
                    start < i <= text@.len(),
                    rest == text@.skip(start as int),
                    field_len(rest) == (i - start) + field_len(text@.skip(i as int)),
                decreases text@.len() - i,
            {
                let ghost tail = text@.skip(i as int);
                assert(tail[0] == text@[i as int]);
                assert(tail.skip(1) == text@.skip(i + 1));
                i += 1;
            }
            proof {
                let tail = text@.skip(i as int);
                if i < text@.len() {
                    assert(tail[0] == text@[i as int]);
                }
                assert(field_len(tail) == 0);
                assert(rest.take(i - start) == text@.subrange(start as int, i as int));
                assert(rest.skip(i - start) == tail);
            }
            let field = copy_range(text, start, i);
            out.push(field);
            assert(views(out@) == before.push(field@));
        }
    }
    assert(text@.skip(i as int).len() == 0);
    out
}

/// Whether a byte is white space between fields.
pub fn is_blank_byte(byte: u8) -> (yes: bool)
    ensures
        yes == is_blank(byte),
{
    byte == 32 || (9 <= byte && byte <= 13)
}

} // verus!

verus! {

/// Whether `item` is one of `list`.
pub fn holds(list: &Vec<Vec<u8>>, item: &[u8]) -> (yes: bool)
    ensures
        yes == views(list@).contains(item@),
{
    let mut i: usize = 0;
    while i < list.len()
        invariant
            i <= list@.len(),
            forall|k: int| 0 <= k < i ==> views(list@)[k] != item@,
        decreases list@.len() - i,
    {
        if crate::bytes::equal(list[i].as_slice(), item) {
            assert(views(list@)[i as int] == item@);
            return true;
        }
        i += 1;
    }
    false
}

} // verus!
