//! Byte strings.
//!
//! File names, paths and the two on-disk formats of a trash directory are
//! sequences of bytes. This module holds the operations on them that the rest
//! of the library is built from, each stated over `Seq<u8>`.

use vstd::prelude::*;

verus! {

/// The line feed, which ends a line.
pub const LF: u8 = 10;

/// The carriage return, dropped where it stands before a line feed.
pub const CR: u8 = 13;

/// The path separator.
pub const SLASH: u8 = 47;

/// The bytes of an ASCII text, one byte for each character.
pub open spec fn ascii(text: Seq<char>) -> Seq<u8> {
    Seq::new(text.len(), |i: int| text[i] as u8)
}

/// The bytes of a string; for an ASCII string, one byte for each character.
pub fn literal(text: &str) -> (out: &[u8])
    ensures
        out@ == vstd::utf8::encode_utf8(text@),
        vstd::string::is_ascii(text) ==> out@ == ascii(text@),
{
    broadcast use vstd::string::is_ascii_spec_bytes;

    text.as_bytes()
}

/// Appends `src` to `dst`.
pub fn append(dst: &mut Vec<u8>, src: &[u8])
    ensures
        final(dst)@ == old(dst)@ + src@,
{
    let mut i: usize = 0;
    while i < src.len()
        invariant
            i <= src@.len(),
            dst@ == old(dst)@ + src@.take(i as int),
        decreases src@.len() - i,
    {
        dst.push(src[i]);
        i += 1;
    }
    assert(src@.take(src@.len() as int) == src@);
}

/// A copy of the bytes of `src` from `from` up to `to`.
pub fn copy_range(src: &[u8], from: usize, to: usize) -> (out: Vec<u8>)
    requires
        from <= to <= src@.len(),
    ensures
        out@ == src@.subrange(from as int, to as int),
{
    let mut out: Vec<u8> = Vec::new();
    let mut i: usize = from;
    while i < to
        invariant
            from <= i <= to <= src@.len(),
            out@ == src@.subrange(from as int, i as int),
        decreases to - i,
    {
        out.push(src[i]);
        i += 1;
    }
    out
}

/// Whether two byte strings are the same.
pub fn equal(a: &[u8], b: &[u8]) -> (same: bool)
    ensures
        same == (a@ == b@),
{
    if a.len() != b.len() {
        return false;
    }
    let mut i: usize = 0;
    while i < a.len()
        invariant
            i <= a@.len(),
            a@.len() == b@.len(),
            a@.take(i as int) == b@.take(i as int),
        decreases a@.len() - i,
    {
        if a[i] != b[i] {
            return false;
        }
        assert(a@.take(i + 1) == a@.take(i as int).push(a@[i as int]));
        assert(b@.take(i + 1) == b@.take(i as int).push(b@[i as int]));
        i += 1;
    }
    assert(a@.take(a@.len() as int) == a@);
    assert(b@.take(b@.len() as int) == b@);
    true
}

/// Whether `text` begins with `prefix`.
pub fn starts_with(text: &[u8], prefix: &[u8]) -> (yes: bool)
    ensures
        yes == prefix@.is_prefix_of(text@),
{
    if prefix.len() > text.len() {
        return false;
    }
    let head = vstd::slice::slice_subrange(text, 0, prefix.len());
    equal(head, prefix)
}

/// Whether `text` ends with `suffix`.
pub fn ends_with(text: &[u8], suffix: &[u8]) -> (yes: bool)
    ensures
        yes == suffix@.is_suffix_of(text@),
{
    if suffix.len() > text.len() {
        return false;
    }
    let tail = vstd::slice::slice_subrange(text, text.len() - suffix.len(), text.len());
    equal(tail, suffix)
}

/// `at` is the place of the first `byte` in `text`, or the length of `text`
/// where it holds none.
pub open spec fn is_first_index(text: Seq<u8>, byte: u8, at: int) -> bool {
    &&& 0 <= at <= text.len()
    &&& forall|i: int| 0 <= i < at ==> text[i] != byte
    &&& at < text.len() ==> text[at] == byte
}

/// The place of the first `byte` in `text`, or the length of `text` where
/// it holds none.
pub open spec fn first_index(text: Seq<u8>, byte: u8) -> int {
    choose|at: int| is_first_index(text, byte, at)
}

/// `first_index` is the one place that `is_first_index` accepts.
pub proof fn lemma_first_index(text: Seq<u8>, byte: u8, at: int)
    requires
        is_first_index(text, byte, at),
    ensures
        first_index(text, byte) == at,
{
    let chosen = first_index(text, byte);
    assert(is_first_index(text, byte, chosen));
    if chosen < at {
        assert(text[chosen] != byte);
    }
    if at < chosen {
        assert(text[at] != byte);
    }
}

/// Every text has a first index for every byte.
pub proof fn lemma_first_index_exists(text: Seq<u8>, byte: u8)
    ensures
        is_first_index(text, byte, first_index(text, byte)),
    decreases text.len(),
{
    if text.len() == 0 {
        assert(is_first_index(text, byte, 0));
    } else if text[0] == byte {
        assert(is_first_index(text, byte, 0));
    } else {
        let rest = text.skip(1);
        lemma_first_index_exists(rest, byte);
        let at = first_index(rest, byte);
        assert forall|i: int| 0 <= i < at + 1 implies text[i] != byte by {
            if i > 0 {
                assert(rest[i - 1] == text[i]);
            }
        }
        if at + 1 < text.len() {
            assert(rest[at] == text[at + 1]);
        }
        assert(is_first_index(text, byte, at + 1));
    }
}

/// The place of the first `byte` in `text` at or after `from`, or the length
/// of `text` where none follows.
pub fn find_from(text: &[u8], byte: u8, from: usize) -> (at: usize)
    requires
        from <= text@.len(),
    ensures
        at == from + first_index(text@.skip(from as int), byte),
        from <= at <= text@.len(),
{
    let mut i: usize = from;
    while i < text.len() && text[i] != byte
        invariant
            from <= i <= text@.len(),
            forall|k: int| from <= k < i ==> text@[k] != byte,
        decreases text@.len() - i,
    {
        i += 1;
    }
    proof {
        lemma_first_index(text@.skip(from as int), byte, i - from);
    }
    i
}

/// `at` is the place of the last `byte` in `text`.
pub open spec fn is_last_index(text: Seq<u8>, byte: u8, at: int) -> bool {
    &&& 0 <= at < text.len()
    &&& text[at] == byte
    &&& forall|i: int| at < i < text.len() ==> text[i] != byte
}

/// The place of the last `byte` in `text`, where it holds one.
pub open spec fn last_index(text: Seq<u8>, byte: u8) -> int {
    choose|at: int| is_last_index(text, byte, at)
}

/// `last_index` is the one place that `is_last_index` accepts.
pub proof fn lemma_last_index(text: Seq<u8>, byte: u8, at: int)
    requires
        is_last_index(text, byte, at),
    ensures
        last_index(text, byte) == at,
        text.contains(byte),
{
    let chosen = last_index(text, byte);
    assert(is_last_index(text, byte, chosen));
    assert(text[at] == byte);
}

/// A text that holds `byte` has a last place of it.
pub proof fn lemma_last_index_exists(text: Seq<u8>, byte: u8)
    requires
        text.contains(byte),
    ensures
        is_last_index(text, byte, last_index(text, byte)),
    decreases text.len(),
{
    let found = choose|i: int| 0 <= i < text.len() && text[i] == byte;
    if text.last() == byte {
        assert(is_last_index(text, byte, text.len() - 1));
    } else {
        let front = text.drop_last();
        assert(front[found] == byte);
        lemma_last_index_exists(front, byte);
        let at = last_index(front, byte);
        assert forall|i: int| at < i < text.len() implies text[i] != byte by {
            if i < front.len() {
                assert(front[i] != byte);
            }
        }
        assert(text[at] == front[at]);
        assert(is_last_index(text, byte, at));
    }
}

/// The place of the last `byte` in `text`, if it holds one.
pub fn find_last(text: &[u8], byte: u8) -> (at: Option<usize>)
    ensures
        match at {
            Some(i) => is_last_index(text@, byte, i as int) && last_index(text@, byte) == i
                && text@.contains(byte),
            None => !text@.contains(byte),
        },
{
    let mut i: usize = text.len();
    while i > 0
        invariant
            i <= text@.len(),
            forall|k: int| i <= k < text@.len() ==> text@[k] != byte,
        decreases i,
    {
        i -= 1;
        if text[i] == byte {
            proof {
                lemma_last_index(text@, byte, i as int);
            }
            return Some(i);
        }
    }
    None
}

/// Whether `a` comes before `b` in the order of byte strings: the first byte
/// in which they differ decides, and a proper prefix comes first.
pub open spec fn precedes(a: Seq<u8>, b: Seq<u8>) -> bool
    decreases a.len(),
{
    if b.len() == 0 {
        false
    } else if a.len() == 0 {
        true
    } else if a[0] != b[0] {
        a[0] < b[0]
    } else {
        precedes(a.skip(1), b.skip(1))
    }
}

/// Whether `a` comes before `b` in the order of byte strings.
pub fn comes_before(a: &[u8], b: &[u8]) -> (yes: bool)
    ensures
        yes == precedes(a@, b@),
{
    let mut i: usize = 0;
    assert(a@.skip(0) == a@ && b@.skip(0) == b@);
    while i < a.len() && i < b.len()
        invariant
            i <= a@.len(),
            i <= b@.len(),
            precedes(a@, b@) == precedes(a@.skip(i as int), b@.skip(i as int)),
        decreases a@.len() - i,
    {
        let ghost ra = a@.skip(i as int);
        let ghost rb = b@.skip(i as int);
        assert(ra[0] == a@[i as int] && rb[0] == b@[i as int]);
        if a[i] != b[i] {
            return a[i] < b[i];
        }
        assert(ra.skip(1) == a@.skip(i + 1));
        assert(rb.skip(1) == b@.skip(i + 1));
        i += 1;
    }
    assert(a@.skip(i as int).len() == a@.len() - i);
    assert(b@.skip(i as int).len() == b@.len() - i);
    i < b.len()
}

/// No byte string comes before itself.
pub proof fn lemma_precedes_irreflexive(a: Seq<u8>)
    ensures
        !precedes(a, a),
    decreases a.len(),
{
    if a.len() > 0 {
        lemma_precedes_irreflexive(a.skip(1));
    }
}

/// The order of byte strings is transitive.
pub proof fn lemma_precedes_transitive(a: Seq<u8>, b: Seq<u8>, c: Seq<u8>)
    requires
        precedes(a, b),
        precedes(b, c),
    ensures
        precedes(a, c),
    decreases a.len(),
{
    if a.len() > 0 && a[0] == b[0] && b[0] == c[0] {
        lemma_precedes_transitive(a.skip(1), b.skip(1), c.skip(1));
    }
}

} // verus!
