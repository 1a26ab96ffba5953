//! The layout of a trash directory: `files/` for what was trashed, `info/`
//! for one `.trashinfo` file per item, and the `directorysizes` cache.

use vstd::prelude::*;
use crate::bytes::{append, ascii, copy_range, ends_with, literal, SLASH};
use crate::paths::{join, joined};
use crate::trashinfo::{info_suffix, info_suffix_bytes, temp_suffix, temp_suffix_bytes};

verus! {

/// The name of the directory of the trashed items.
pub open spec fn files_name() -> Seq<u8> {
    ascii("files"@)
}

/// The name of the directory of the `.trashinfo` files.
pub open spec fn info_name() -> Seq<u8> {
    ascii("info"@)
}

/// The name of the size cache.
pub open spec fn cache_name() -> Seq<u8> {
    ascii("directorysizes"@)
}

/// The directory of the trashed items of `trash`.
pub open spec fn files_dir_of(trash: Seq<u8>) -> Seq<u8> {
    joined(trash, files_name())
}

/// The directory of the `.trashinfo` files of `trash`.
pub open spec fn info_dir_of(trash: Seq<u8>) -> Seq<u8> {
    joined(trash, info_name())
}

/// The size cache of `trash`.
pub open spec fn cache_file_of(trash: Seq<u8>) -> Seq<u8> {
    joined(trash, cache_name())
}

/// The file that takes the place of the size cache once it is written.
pub open spec fn cache_temp_of(trash: Seq<u8>) -> Seq<u8> {
    joined(trash, ascii("directorysizes.tmp"@))
}

/// Where the item `name` of `trash` lies.
pub open spec fn content_path_of(trash: Seq<u8>, name: Seq<u8>) -> Seq<u8> {
    joined(files_dir_of(trash), name)
}

/// The name of the `.trashinfo` file of the item `name`.
pub open spec fn info_file_name(name: Seq<u8>) -> Seq<u8> {
    name + info_suffix()
}

/// Where the `.trashinfo` file of the item `name` of `trash` lies.
pub open spec fn info_path_of(trash: Seq<u8>, name: Seq<u8>) -> Seq<u8> {
    joined(info_dir_of(trash), info_file_name(name))
}

/// Where the `.trashinfo` file of the item `name` is written before it takes
/// its place.
pub open spec fn info_temp_of(trash: Seq<u8>, name: Seq<u8>) -> Seq<u8> {
    info_path_of(trash, name) + temp_suffix()
}

/// The directory of the trashed items of `trash`.
pub fn files_dir(trash: &[u8]) -> (out: Vec<u8>)
    ensures
        out@ == files_dir_of(trash@),
{
    proof {
        reveal_strlit("files");
    }
    join(trash, literal("files"))
}

/// The directory of the `.trashinfo` files of `trash`.
pub fn info_dir(trash: &[u8]) -> (out: Vec<u8>)
    ensures
        out@ == info_dir_of(trash@),
{
    proof {
        reveal_strlit("info");
    }
    join(trash, literal("info"))
}

/// The size cache of `trash`.
pub fn cache_file(trash: &[u8]) -> (out: Vec<u8>)
    ensures
        out@ == cache_file_of(trash@),
{
    proof {
        reveal_strlit("directorysizes");
    }
    join(trash, literal("directorysizes"))
}

/// The file that takes the place of the size cache once it is written.
pub fn cache_temp(trash: &[u8]) -> (out: Vec<u8>)
    ensures
        out@ == cache_temp_of(trash@),
{
    proof {
        reveal_strlit("directorysizes.tmp");
    }
    join(trash, literal("directorysizes.tmp"))
}

/// Where the item `name` of `trash` lies.
pub fn content_path(trash: &[u8], name: &[u8]) -> (out: Vec<u8>)
    ensures
        out@ == content_path_of(trash@, name@),
{
    let dir = files_dir(trash);
    join(dir.as_slice(), name)
}

/// Where the `.trashinfo` file of the item `name` of `trash` lies.
pub fn info_path(trash: &[u8], name: &[u8]) -> (out: Vec<u8>)
    ensures
        out@ == info_path_of(trash@, name@),
{
    let dir = info_dir(trash);
    let mut file: Vec<u8> = Vec::new();
    append(&mut file, name);
    append(&mut file, info_suffix_bytes());
    join(dir.as_slice(), file.as_slice())
}

/// Where the `.trashinfo` file of the item `name` is written before it takes
/// its place.
pub fn info_temp(trash: &[u8], name: &[u8]) -> (out: Vec<u8>)
    ensures
        out@ == info_temp_of(trash@, name@),
{
    let mut out = info_path(trash, name);
    append(&mut out, temp_suffix_bytes());
    out
}

/// The item that a file of `info/` belongs to: its name without `.trashinfo`
/// at the end, where it ends so.
pub open spec fn item_of(info_file: Seq<u8>) -> Option<Seq<u8>> {
    if info_suffix().is_suffix_of(info_file) {
        Some(info_file.take(info_file.len() - info_suffix().len()))
    } else {
        None
    }
}

/// The item that a file of `info/` belongs to.
pub fn item_name(info_file: &[u8]) -> (out: Option<Vec<u8>>)
    ensures
        match out {
            Some(name) => item_of(info_file@) == Some(name@),
            None => item_of(info_file@) is None,
        },
{
    let suffix = info_suffix_bytes();
    if ends_with(info_file, suffix) {
        Some(copy_range(info_file, 0, info_file.len() - suffix.len()))
    } else {
        None
    }
}

/// The item of the `.trashinfo` file of an item is that item.
pub proof fn lemma_item_of_info_file(name: Seq<u8>)
    ensures
        item_of(info_file_name(name)) == Some(name),
{
    let file = info_file_name(name);
    assert(file.subrange(file.len() - info_suffix().len(), file.len() as int) =~= info_suffix());
    assert(file.take(file.len() - info_suffix().len()) =~= name);
}

/// The `.trashinfo` file of an item lies in `info/` under the name of the
/// item with `.trashinfo` after it, and that is the last component of its
/// path.
pub proof fn lemma_info_path(trash: Seq<u8>, name: Seq<u8>)
    requires
        !name.contains(SLASH),
    ensures
        crate::paths::file_name_of(info_path_of(trash, name)) == Some(info_file_name(name)),
{
    reveal_strlit("info");
    reveal_strlit(".trashinfo");
    let dir = info_dir_of(trash);
    let file = info_file_name(name);
    let path = info_path_of(trash, name);
    assert(!crate::paths::is_absolute(info_name()));
    assert(dir.last() == info_name().last());
    assert forall|i: int| 0 <= i < file.len() implies file[i] != SLASH by {
        if i < name.len() {
            assert(name.contains(name[i]));
        } else {
            assert(file[i] == info_suffix()[i - name.len()]);
        }
    }
    assert(file[0] != SLASH);
    assert(path =~= dir.push(SLASH) + file);
    let at = dir.len() as int;
    assert(path[at] == SLASH);
    assert forall|i: int| at < i < path.len() implies path[i] != SLASH by {
        assert(path[i] == file[i - at - 1]);
    }
    crate::bytes::lemma_last_index(path, SLASH, at);
    assert(path.skip(at + 1) =~= file);
    assert(file.len() >= 10);
    assert(file != seq![46u8] && file != seq![46u8, 46u8]);
}

} // verus!
