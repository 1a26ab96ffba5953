//! The name that an item gets in the trash.
//!
//! An item keeps its name where that is free. Where it is taken, a counter in
//! brackets goes before the extension: `name(1).ext`, `name(2).ext`, and so
//! on, until a name is free both in `files/` and in `info/`.

use vstd::prelude::*;
use crate::bytes::{append, copy_range, find_last, last_index};
use crate::decimal::{digits, is_digit, lemma_digits, lemma_digits_injective, push_u128};
use crate::layout::info_file_name;
use crate::lines::{holds, views};
use crate::trashinfo::{info_suffix, info_suffix_bytes};

verus! {

/// The dot, which opens an extension.
pub const DOT: u8 = 46;

/// The bracket before the counter.
pub const OPENING: u8 = 40;

/// The bracket after the counter.
pub const CLOSING: u8 = 41;

/// Where the extension of `name` starts: at its last dot, or at its end where
/// it has none.
pub open spec fn extension_start(name: Seq<u8>) -> int {
    if name.contains(DOT) {
        last_index(name, DOT)
    } else {
        name.len() as int
    }
}

/// The name that is tried after `count` others were found taken: `name`
/// itself at first, then `name` with the counter in brackets before its
/// extension.
pub open spec fn candidate(name: Seq<u8>, count: nat) -> Seq<u8> {
    if count == 0 {
        name
    } else {
        name.take(extension_start(name)) + seq![OPENING] + digits(count) + seq![CLOSING] + name.skip(
            extension_start(name),
        )
    }
}

/// Whether `name` is taken in a trash directory whose `files/` holds `files`
/// and whose `info/` holds `info`: an item or a `.trashinfo` file has it.
pub open spec fn is_taken(files: Seq<Seq<u8>>, info: Seq<Seq<u8>>, name: Seq<u8>) -> bool {
    files.contains(name) || info.contains(info_file_name(name))
}

/// Whether `count` is the first counter whose candidate is free.
pub open spec fn is_first_free(files: Seq<Seq<u8>>, info: Seq<Seq<u8>>, name: Seq<u8>, count: nat) -> bool {
    &&& !is_taken(files, info, candidate(name, count))
    &&& forall|earlier: nat| earlier < count ==> is_taken(files, info, #[trigger] candidate(name, earlier))
}

/// The first counter whose candidate is free.
pub open spec fn first_free(files: Seq<Seq<u8>>, info: Seq<Seq<u8>>, name: Seq<u8>) -> nat {
    choose|count: nat| is_first_free(files, info, name, count)
}

/// The name that an item called `name` gets: the first candidate that is
/// free.
pub open spec fn unique_name(files: Seq<Seq<u8>>, info: Seq<Seq<u8>>, name: Seq<u8>) -> Seq<u8> {
    candidate(name, first_free(files, info, name))
}

/// The name that is tried after `count` others were found taken.
pub fn candidate_name(name: &[u8], count: u128) -> (out: Vec<u8>)
    ensures
        out@ == candidate(name@, count as nat),
{
    if count == 0 {
        assert(name@.subrange(0, name@.len() as int) == name@);
        return copy_range(name, 0, name.len());
    }
    let at: usize = match find_last(name, DOT) {
        Some(at) => at,
        None => name.len(),
    };
    assert(at == extension_start(name@));
    let mut out = copy_range(name, 0, at);
    out.push(OPENING);
    push_u128(&mut out, count);
    out.push(CLOSING);
    append(&mut out, vstd::slice::slice_subrange(name, at, name.len()));
    assert(name@.take(at as int) == name@.subrange(0, at as int));
    assert(name@.skip(at as int) == name@.subrange(at as int, name@.len() as int));
    out
}

/// The name of the `.trashinfo` file of the item `name`.
pub fn info_file(name: &[u8]) -> (out: Vec<u8>)
    ensures
        out@ == info_file_name(name@),
{
    let mut out: Vec<u8> = Vec::new();
    append(&mut out, name);
    append(&mut out, info_suffix_bytes());
    out
}

/// The name that an item called `original_name` gets in a trash directory
/// whose `files/` holds the names `files` and whose `info/` holds the names
/// `info`: the first candidate that neither an item nor a `.trashinfo` file
/// has.
pub fn find_unique_name(files: &Vec<Vec<u8>>, info: &Vec<Vec<u8>>, original_name: &[u8]) -> (out: Vec<u8>)
    ensures
        out@ == unique_name(views(files@), views(info@), original_name@),
        is_first_free(
            views(files@),
            views(info@),
            original_name@,
            first_free(views(files@), views(info@), original_name@),
        ),
        !is_taken(views(files@), views(info@), out@),
{
    let names: u128 = files.len() as u128 + info.len() as u128;
    let mut count: u128 = 0;
    loop
        invariant
            names == files@.len() + info@.len(),
            count <= names,
            forall|earlier: nat|
                earlier < count ==> is_taken(
                    views(files@),
                    views(info@),
                    #[trigger] candidate(original_name@, earlier),
                ),
        decreases files@.len() + info@.len() - count,
    {
        let name = candidate_name(original_name, count);
        let info_name = info_file(name.as_slice());
        if !holds(files, name.as_slice()) && !holds(info, info_name.as_slice()) {
            proof {
                lemma_first_free(views(files@), views(info@), original_name@, count as nat);
            }
            return name;
        }
        proof {
            assert forall|earlier: nat| earlier < count + 1 implies is_taken(
                views(files@),
                views(info@),
                #[trigger] candidate(original_name@, earlier),
            ) by {}
            lemma_taken_candidates_are_few(
                views(files@),
                views(info@),
                original_name@,
                (count + 1) as nat,
            );
        }
        count += 1;
    }
}

/// The first free counter is the only one that `is_first_free` accepts.
pub proof fn lemma_first_free(files: Seq<Seq<u8>>, info: Seq<Seq<u8>>, name: Seq<u8>, count: nat)
    requires
        is_first_free(files, info, name, count),
    ensures
        first_free(files, info, name) == count,
{
    let chosen = first_free(files, info, name);
    assert(is_first_free(files, info, name, chosen));
    if chosen < count {
        assert(is_taken(files, info, candidate(name, chosen)));
    }
    if count < chosen {
        assert(is_taken(files, info, candidate(name, count)));
    }
}

/// Different counters give different candidates.
pub proof fn lemma_candidates_differ(name: Seq<u8>, a: nat, b: nat)
    requires
        a != b,
    ensures
        candidate(name, a) != candidate(name, b),
        info_file_name(candidate(name, a)) != info_file_name(candidate(name, b)),
{
    let at = extension_start(name);
    lemma_digits(a);
    lemma_digits(b);
    if name.contains(DOT) {
        crate::bytes::lemma_last_index_exists(name, DOT);
    }
    assert(0 <= at <= name.len());
    let first = candidate(name, a);
    let second = candidate(name, b);
    if first == second {
        if a == 0 || b == 0 {
            assert(first.len() != second.len());
        } else {
            assert(digits(a).len() == digits(b).len());
            assert(first.subrange(at + 1, at + 1 + digits(a).len()) =~= digits(a));
            assert(second.subrange(at + 1, at + 1 + digits(b).len()) =~= digits(b));
            lemma_digits_injective(a, b);
        }
    }
    if info_file_name(first) == info_file_name(second) {
        assert(info_file_name(first).len() == first.len() + info_suffix().len());
        assert(info_file_name(second).len() == second.len() + info_suffix().len());
        assert(info_file_name(first).take(first.len() as int) =~= first);
        assert(info_file_name(second).take(second.len() as int) =~= second);
    }
}

/// A candidate holds a path separator only where the name does.
pub proof fn lemma_candidate_is_a_name(name: Seq<u8>, count: nat)
    requires
        !name.contains(crate::bytes::SLASH),
    ensures
        !candidate(name, count).contains(crate::bytes::SLASH),
{
    let made = candidate(name, count);
    if made.contains(crate::bytes::SLASH) {
        let i = choose|i: int| 0 <= i < made.len() && made[i] == crate::bytes::SLASH;
        if count > 0 {
            let at = extension_start(name);
            if name.contains(DOT) {
                crate::bytes::lemma_last_index_exists(name, DOT);
            }
            lemma_digits(count);
            let width = digits(count).len() as int;
            if i < at {
                assert(made[i] == name[i]);
                assert(name.contains(name[i]));
            } else if i == at {
            } else if i <= at + width {
                assert(made[i] == digits(count)[i - at - 1]);
                assert(is_digit(digits(count)[i - at - 1]));
            } else if i == at + width + 1 {
            } else {
                assert(made[i] == name[i - width - 2]);
                assert(name.contains(name[i - width - 2]));
            }
        }
    }
}

/// No more candidates can be taken than the directory has names: where the
/// first `count` candidates are taken, `count` is at most the number of
/// names in `files/` and `info/` together.
pub proof fn lemma_taken_candidates_are_few(
    files: Seq<Seq<u8>>,
    info: Seq<Seq<u8>>,
    name: Seq<u8>,
    count: nat,
)
    requires
        forall|earlier: nat| earlier < count ==> is_taken(files, info, #[trigger] candidate(name, earlier)),
    ensures
        count <= files.len() + info.len(),
    decreases count,
{
    if count > 0 {
        let last = candidate(name, (count - 1) as nat);
        assert(is_taken(files, info, last));
        if files.contains(last) {
            let at = choose|at: int| 0 <= at < files.len() && files[at] == last;
            let fewer = files.remove(at);
            assert forall|earlier: nat| earlier < count - 1 implies is_taken(
                fewer,
                info,
                #[trigger] candidate(name, earlier),
            ) by {
                let other = candidate(name, earlier);
                lemma_candidates_differ(name, earlier, (count - 1) as nat);
                assert(is_taken(files, info, other));
                if files.contains(other) {
                    let k = choose|k: int| 0 <= k < files.len() && files[k] == other;
                    if k < at {
                        assert(fewer[k] == other);
                    } else {
                        assert(fewer[k - 1] == other);
                    }
                }
            }
            lemma_taken_candidates_are_few(fewer, info, name, (count - 1) as nat);
        } else {
            let wanted = info_file_name(last);
            let at = choose|at: int| 0 <= at < info.len() && info[at] == wanted;
            let fewer = info.remove(at);
            assert forall|earlier: nat| earlier < count - 1 implies is_taken(
                files,
                fewer,
                #[trigger] candidate(name, earlier),
            ) by {
                let other = candidate(name, earlier);
                lemma_candidates_differ(name, earlier, (count - 1) as nat);
                assert(is_taken(files, info, other));
                if !files.contains(other) {
                    let k = choose|k: int| 0 <= k < info.len() && info[k] == info_file_name(other);
                    if k < at {
                        assert(fewer[k] == info_file_name(other));
                    } else {
                        assert(fewer[k - 1] == info_file_name(other));
                    }
                }
            }
            lemma_taken_candidates_are_few(files, fewer, name, (count - 1) as nat);
        }
    }
}

/// Some candidate is free at or after `from`, where all before it are taken.
proof fn lemma_free_from(files: Seq<Seq<u8>>, info: Seq<Seq<u8>>, name: Seq<u8>, from: nat)
    requires
        forall|earlier: nat| earlier < from ==> is_taken(files, info, #[trigger] candidate(name, earlier)),
    ensures
        exists|count: nat| is_first_free(files, info, name, count),
    decreases files.len() + info.len() - from,
{
    lemma_taken_candidates_are_few(files, info, name, from);
    if is_taken(files, info, candidate(name, from)) {
        assert forall|earlier: nat| earlier < from + 1 implies is_taken(
            files,
            info,
            #[trigger] candidate(name, earlier),
        ) by {}
        lemma_taken_candidates_are_few(files, info, name, from + 1);
        lemma_free_from(files, info, name, from + 1);
    } else {
        assert(is_first_free(files, info, name, from));
    }
}

/// Every directory has a free name for every item: the name that
/// `unique_name` gives is a candidate, is free, and all candidates before it
/// are taken.
pub proof fn lemma_unique_name_is_free(files: Seq<Seq<u8>>, info: Seq<Seq<u8>>, name: Seq<u8>)
    ensures
        is_first_free(files, info, name, first_free(files, info, name)),
        !is_taken(files, info, unique_name(files, info, name)),
        !files.contains(unique_name(files, info, name)),
        !info.contains(info_file_name(unique_name(files, info, name))),
{
    lemma_free_from(files, info, name, 0);
}

/// The names in `files/` after `count` items called `name` were trashed one
/// after the other, each under the name that `unique_name` gave it.
pub open spec fn files_after(files: Seq<Seq<u8>>, info: Seq<Seq<u8>>, name: Seq<u8>, count: nat) -> Seq<
    Seq<u8>,
>
    decreases count, 0nat,
{
    if count == 0 {
        files
    } else {
        files_after(files, info, name, (count - 1) as nat).push(
            given_name(files, info, name, (count - 1) as nat),
        )
    }
}

/// The names in `info/` after `count` items called `name` were trashed.
pub open spec fn info_after(files: Seq<Seq<u8>>, info: Seq<Seq<u8>>, name: Seq<u8>, count: nat) -> Seq<
    Seq<u8>,
>
    decreases count, 0nat,
{
    if count == 0 {
        info
    } else {
        info_after(files, info, name, (count - 1) as nat).push(
            info_file_name(given_name(files, info, name, (count - 1) as nat)),
        )
    }
}

/// The name given to the item that is trashed after `count` others of the
/// same name.
pub open spec fn given_name(files: Seq<Seq<u8>>, info: Seq<Seq<u8>>, name: Seq<u8>, count: nat) -> Seq<
    u8,
>
    decreases count, 1nat,
{
    unique_name(files_after(files, info, name, count), info_after(files, info, name, count), name)
}

/// Once given, a name stays in `files/`, and its `.trashinfo` file in
/// `info/`.
pub proof fn lemma_given_names_stay(
    files: Seq<Seq<u8>>,
    info: Seq<Seq<u8>>,
    name: Seq<u8>,
    earlier: nat,
    count: nat,
)
    requires
        earlier < count,
    ensures
        files_after(files, info, name, count).contains(given_name(files, info, name, earlier)),
        info_after(files, info, name, count).contains(
            info_file_name(given_name(files, info, name, earlier)),
        ),
    decreases count,
{
    let before_files = files_after(files, info, name, (count - 1) as nat);
    let before_info = info_after(files, info, name, (count - 1) as nat);
    let now_files = files_after(files, info, name, count);
    let now_info = info_after(files, info, name, count);
    if earlier == count - 1 {
        assert(now_files[now_files.len() - 1] == given_name(files, info, name, earlier));
        assert(now_info[now_info.len() - 1] == info_file_name(given_name(files, info, name, earlier)));
    } else {
        lemma_given_names_stay(files, info, name, earlier, (count - 1) as nat);
        let wanted = given_name(files, info, name, earlier);
        let k = choose|k: int| 0 <= k < before_files.len() && before_files[k] == wanted;
        assert(now_files[k] == wanted);
        let j = choose|j: int| 0 <= j < before_info.len() && before_info[j] == info_file_name(wanted);
        assert(now_info[j] == info_file_name(wanted));
    }
}

/// Items of one name that are trashed one after the other into one trash
/// directory all get different names, and with them different `.trashinfo`
/// files, whatever the directory held before.
pub proof fn lemma_given_names_differ(
    files: Seq<Seq<u8>>,
    info: Seq<Seq<u8>>,
    name: Seq<u8>,
    a: nat,
    b: nat,
)
    requires
        a != b,
    ensures
        given_name(files, info, name, a) != given_name(files, info, name, b),
        info_file_name(given_name(files, info, name, a)) != info_file_name(
            given_name(files, info, name, b),
        ),
{
    let (earlier, later) = if a < b {
        (a, b)
    } else {
        (b, a)
    };
    lemma_given_names_stay(files, info, name, earlier, later);
    lemma_unique_name_is_free(
        files_after(files, info, name, later),
        info_after(files, info, name, later),
        name,
    );
}

/// In a trash directory that holds none of the candidates of `name`, the
/// items called `name` get the candidates in their order: the first keeps the
/// name, the second gets `name(1).ext`, and the one after `count` others the
/// candidate of `count`.
pub proof fn lemma_given_names_follow_the_counter(
    files: Seq<Seq<u8>>,
    info: Seq<Seq<u8>>,
    name: Seq<u8>,
    count: nat,
)
    requires
        forall|any: nat| !is_taken(files, info, #[trigger] candidate(name, any)),
    ensures
        given_name(files, info, name, count) == candidate(name, count),
        forall|item: Seq<u8>|
            #[trigger] files_after(files, info, name, count).contains(item) <==> files.contains(item) || (
            exists|k: nat| k < count && item == candidate(name, k)),
        forall|item: Seq<u8>|
            #[trigger] info_after(files, info, name, count).contains(item) <==> info.contains(item) || (
            exists|k: nat| k < count && item == info_file_name(candidate(name, k))),
    decreases count,
{
    let now_files = files_after(files, info, name, count);
    let now_info = info_after(files, info, name, count);
    if count > 0 {
        let previous = (count - 1) as nat;
        lemma_given_names_follow_the_counter(files, info, name, previous);
        let before_files = files_after(files, info, name, previous);
        let before_info = info_after(files, info, name, previous);
        let added = candidate(name, previous);
        assert(now_files == before_files.push(added));
        assert(now_info == before_info.push(info_file_name(added)));
        assert forall|item: Seq<u8>| #[trigger] now_files.contains(item) <==> files.contains(item) || (
        exists|k: nat| k < count && item == candidate(name, k)) by {
            if now_files.contains(item) {
                let i = choose|i: int| 0 <= i < now_files.len() && now_files[i] == item;
                if i < before_files.len() {
                    assert(before_files[i] == item);
                    assert(before_files.contains(item));
                    if !files.contains(item) {
                        let k = choose|k: nat| k < previous && item == candidate(name, k);
                        assert(k < count && item == candidate(name, k));
                    }
                } else {
                    assert(previous < count && item == candidate(name, previous));
                }
            }
            if files.contains(item) {
                assert(before_files.contains(item));
                let i = choose|i: int| 0 <= i < before_files.len() && before_files[i] == item;
                assert(now_files[i] == item);
            }
            if exists|k: nat| k < count && item == candidate(name, k) {
                let k = choose|k: nat| k < count && item == candidate(name, k);
                if k < previous {
                    assert(before_files.contains(item));
                    let i = choose|i: int| 0 <= i < before_files.len() && before_files[i] == item;
                    assert(now_files[i] == item);
                } else {
                    assert(now_files[now_files.len() - 1] == item);
                }
            }
        }
        assert forall|item: Seq<u8>| #[trigger] now_info.contains(item) <==> info.contains(item) || (
        exists|k: nat| k < count && item == info_file_name(candidate(name, k))) by {
            if now_info.contains(item) {
                let i = choose|i: int| 0 <= i < now_info.len() && now_info[i] == item;
                if i < before_info.len() {
                    assert(before_info[i] == item);
                    assert(before_info.contains(item));
                    if !info.contains(item) {
                        let k = choose|k: nat| k < previous && item == info_file_name(candidate(name, k));
                        assert(k < count && item == info_file_name(candidate(name, k)));
                    }
                } else {
                    assert(previous < count && item == info_file_name(candidate(name, previous)));
                }
            }
            if info.contains(item) {
                assert(before_info.contains(item));
                let i = choose|i: int| 0 <= i < before_info.len() && before_info[i] == item;
                assert(now_info[i] == item);
            }
            if exists|k: nat| k < count && item == info_file_name(candidate(name, k)) {
                let k = choose|k: nat| k < count && item == info_file_name(candidate(name, k));
                if k < previous {
                    assert(before_info.contains(item));
                    let i = choose|i: int| 0 <= i < before_info.len() && before_info[i] == item;
                    assert(now_info[i] == item);
                } else {
                    assert(now_info[now_info.len() - 1] == item);
                }
            }
        }
    }
    let wanted = candidate(name, count);
    assert(!is_taken(files, info, wanted));
    assert(!now_files.contains(wanted)) by {
        if now_files.contains(wanted) {
            let k = choose|k: nat| k < count && wanted == candidate(name, k);
            lemma_candidates_differ(name, k, count);
        }
    }
    assert(!now_info.contains(info_file_name(wanted))) by {
        if now_info.contains(info_file_name(wanted)) {
            let k = choose|k: nat| k < count && info_file_name(wanted) == info_file_name(
                candidate(name, k),
            );
            lemma_candidates_differ(name, k, count);
        }
    }
    assert forall|earlier: nat| earlier < count implies is_taken(
        now_files,
        now_info,
        #[trigger] candidate(name, earlier),
    ) by {
        assert(earlier < count && candidate(name, earlier) == candidate(name, earlier));
        assert(now_files.contains(candidate(name, earlier)));
    }
    lemma_first_free(now_files, now_info, name, count);
}

} // verus!
