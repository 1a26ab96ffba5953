//! The trash of macOS, which the Finder keeps: the library writes the
//! AppleScript commands, and the caller hands them to `osascript`.

use vstd::prelude::*;
use crate::bytes::{append, ascii, literal};
use crate::lines::views;

verus! {

/// The double quote, which no path in a command may hold.
pub const QUOTE: u8 = 34;

/// What the command that deletes begins with, up to the first path.
pub open spec fn delete_opening() -> Seq<u8> {
    ascii("tell application \"Finder\" to delete { POSIX file \""@)
}

/// What stands between two paths of the command.
pub open spec fn delete_separator() -> Seq<u8> {
    ascii("\", POSIX file \""@)
}

/// What the command that deletes ends with, after the last path.
pub open spec fn delete_closing() -> Seq<u8> {
    ascii("\"}"@)
}

/// The command that empties the trash.
pub open spec fn empty_script() -> Seq<u8> {
    ascii("tell application \"Finder\" to empty trash"@)
}

/// The items, with `separator` between each two of them.
pub open spec fn separated(items: Seq<Seq<u8>>, separator: Seq<u8>) -> Seq<u8>
    decreases items.len(),
{
    if items.len() == 0 {
        Seq::empty()
    } else if items.len() == 1 {
        items[0]
    } else {
        separated(items.drop_last(), separator) + separator + items.last()
    }
}

/// The command that has the Finder move `files` to the trash.
pub open spec fn delete_script(files: Seq<Seq<u8>>) -> Seq<u8> {
    delete_opening() + separated(files, delete_separator()) + delete_closing()
}

/// Whether a path can stand between the quotes of a command: it holds no
/// double quote.
pub fn can_quote(path: &[u8]) -> (yes: bool)
    ensures
        yes == !path@.contains(QUOTE),
{
    let at = crate::bytes::find_from(path, QUOTE, 0);
    proof {
        assert(path@.skip(0) == path@);
        crate::bytes::lemma_first_index_exists(path@, QUOTE);
    }
    at == path.len()
}

/// The AppleScript command that has the Finder move `files`, absolute paths
/// without a double quote, to the trash.
pub fn move_file_to_trash(files: &[Vec<u8>]) -> (script: Vec<u8>)
    ensures
        script@ == delete_script(views(files@)),
{
    proof {
        reveal_strlit("tell application \"Finder\" to delete { POSIX file \"");
        reveal_strlit("\", POSIX file \"");
        reveal_strlit("\"}");
    }
    let separator = literal("\", POSIX file \"");
    let mut script: Vec<u8> = Vec::new();
    append(&mut script, literal("tell application \"Finder\" to delete { POSIX file \""));
    let mut i: usize = 0;
    assert(views(files@).take(0).len() == 0);
    while i < files.len()
        invariant
            i <= files@.len(),
            separator@ == delete_separator(),
            script@ == delete_opening() + separated(views(files@).take(i as int), delete_separator()),
        decreases files@.len() - i,
    {
        let ghost shown = views(files@).take(i + 1);
        assert(shown.drop_last() == views(files@).take(i as int));
        assert(shown.last() == files@[i as int]@);
        if i > 0 {
            append(&mut script, separator);
        }
        append(&mut script, files[i].as_slice());
        i += 1;
    }
    assert(views(files@).take(i as int) == views(files@));
    append(&mut script, literal("\"}"));
    script
}

/// The AppleScript command that has the Finder empty the trash.
pub fn empty_trash() -> (script: Vec<u8>)
    ensures
        script@ == empty_script(),
{
    proof {
        reveal_strlit("tell application \"Finder\" to empty trash");
    }
    let mut script: Vec<u8> = Vec::new();
    append(&mut script, literal("tell application \"Finder\" to empty trash"));
    script
}

} // verus!
