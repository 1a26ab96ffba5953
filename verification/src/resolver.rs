//! Which trash directories there are, and which of them takes a given file.
//!
//! The home trash lies under the user's data directory. Each mounted file
//! system may hold a trash directory of its own at one of two places:
//! `.Trash/<uid>`, below a directory that all users share, which counts only
//! where it holds both `files/` and `info/`; and `.Trash-<uid>`, which counts
//! wherever it exists.

use vstd::prelude::*;
use crate::bytes::{append, ascii, copy_range, literal};
use crate::decimal::{digits, push_u64};
use crate::lines::{fields, holds, lines, split_fields, split_lines, views};
use crate::paths::{join, joined, parent, parent_of};

verus! {

/// The file system types that hold no files of a user, and so no trash.
pub open spec fn pseudo_filesystems() -> Seq<Seq<u8>> {
    seq![
        ascii("proc"@),
        ascii("sysfs"@),
        ascii("tmpfs"@),
        ascii("devpts"@),
        ascii("devtmpfs"@),
        ascii("cgroup"@),
        ascii("cgroup2"@),
        ascii("securityfs"@),
        ascii("pstore"@),
        ascii("bpf"@),
        ascii("tracefs"@),
        ascii("debugfs"@),
        ascii("hugetlbfs"@),
        ascii("mqueue"@),
        ascii("autofs"@),
        ascii("configfs"@),
        ascii("fusectl"@),
        ascii("selinuxfs"@),
        ascii("rpc_pipefs"@),
        ascii("binfmt_misc"@),
    ]
}

/// Whether a file system type is one of the pseudo file systems.
pub open spec fn is_pseudo(fs_type: Seq<u8>) -> bool {
    pseudo_filesystems().contains(fs_type)
}

/// The file system types that hold no files of a user.
fn pseudo_filesystem_names() -> (out: Vec<Vec<u8>>)
    ensures
        views(out@) == pseudo_filesystems(),
{
    proof {
        reveal_strlit("proc");
        reveal_strlit("sysfs");
        reveal_strlit("tmpfs");
        reveal_strlit("devpts");
        reveal_strlit("devtmpfs");
        reveal_strlit("cgroup");
        reveal_strlit("cgroup2");
        reveal_strlit("securityfs");
        reveal_strlit("pstore");
        reveal_strlit("bpf");
        reveal_strlit("tracefs");
        reveal_strlit("debugfs");
        reveal_strlit("hugetlbfs");
        reveal_strlit("mqueue");
        reveal_strlit("autofs");
        reveal_strlit("configfs");
        reveal_strlit("fusectl");
        reveal_strlit("selinuxfs");
        reveal_strlit("rpc_pipefs");
        reveal_strlit("binfmt_misc");
    }
    let mut out: Vec<Vec<u8>> = Vec::new();
    out.push(vstd::slice::slice_to_vec(literal("proc")));
    out.push(vstd::slice::slice_to_vec(literal("sysfs")));
    out.push(vstd::slice::slice_to_vec(literal("tmpfs")));
    out.push(vstd::slice::slice_to_vec(literal("devpts")));
    out.push(vstd::slice::slice_to_vec(literal("devtmpfs")));
    out.push(vstd::slice::slice_to_vec(literal("cgroup")));
    out.push(vstd::slice::slice_to_vec(literal("cgroup2")));
    out.push(vstd::slice::slice_to_vec(literal("securityfs")));
    out.push(vstd::slice::slice_to_vec(literal("pstore")));
    out.push(vstd::slice::slice_to_vec(literal("bpf")));
    out.push(vstd::slice::slice_to_vec(literal("tracefs")));
    out.push(vstd::slice::slice_to_vec(literal("debugfs")));
    out.push(vstd::slice::slice_to_vec(literal("hugetlbfs")));
    out.push(vstd::slice::slice_to_vec(literal("mqueue")));
    out.push(vstd::slice::slice_to_vec(literal("autofs")));
    out.push(vstd::slice::slice_to_vec(literal("configfs")));
    out.push(vstd::slice::slice_to_vec(literal("fusectl")));
    out.push(vstd::slice::slice_to_vec(literal("selinuxfs")));
    out.push(vstd::slice::slice_to_vec(literal("rpc_pipefs")));
    out.push(vstd::slice::slice_to_vec(literal("binfmt_misc")));
    assert(views(out@) =~= pseudo_filesystems());
    out
}

/// Whether a file system type is one of the pseudo file systems.
pub fn is_pseudo_filesystem(fs_type: &[u8]) -> (yes: bool)
    ensures
        yes == is_pseudo(fs_type@),
{
    let names = pseudo_filesystem_names();
    holds(&names, fs_type)
}

/// The mount point that a line of the mount table gives to look for a trash
/// directory: its second field, where the line has three fields or more and
/// the third, the file system type, is no pseudo file system.
pub open spec fn real_mount_of(line: Seq<u8>) -> Option<Seq<u8>> {
    let parts = fields(line);
    if parts.len() >= 3 && !is_pseudo(parts[2]) {
        Some(parts[1])
    } else {
        None
    }
}

/// The mount points that the lines of a mount table give, in their order.
pub open spec fn real_mounts(lines: Seq<Seq<u8>>) -> Seq<Seq<u8>>
    decreases lines.len(),
{
    if lines.len() == 0 {
        Seq::empty()
    } else {
        match real_mount_of(lines.last()) {
            Some(point) => real_mounts(lines.drop_last()).push(point),
            None => real_mounts(lines.drop_last()),
        }
    }
}

/// The mount points of a mount table, in the format of `/proc/mounts`, on
/// which a trash directory may lie.
pub fn mount_points(mounts: &[u8]) -> (out: Vec<Vec<u8>>)
    ensures
        views(out@) == real_mounts(lines(mounts@)),
{
    let all = split_lines(mounts);
    let mut out: Vec<Vec<u8>> = Vec::new();
    let mut i: usize = 0;
    assert(views(all@).take(0).len() == 0);
    assert(views(out@) =~= Seq::<Seq<u8>>::empty());
    while i < all.len()
        invariant
            i <= all@.len(),
            views(out@) == real_mounts(views(all@).take(i as int)),
        decreases all@.len() - i,
    {
        let ghost shown = views(all@).take(i + 1);
        let ghost before = views(out@);
        assert(shown.drop_last() == views(all@).take(i as int));
        assert(shown.last() == all@[i as int]@);
        let parts = split_fields(all[i].as_slice());
        if parts.len() >= 3 {
            assert(views(parts@)[1] == parts@[1]@ && views(parts@)[2] == parts@[2]@);
            if !is_pseudo_filesystem(parts[2].as_slice()) {
                let point = copy_range(parts[1].as_slice(), 0, parts[1].len());
                assert(point@ == parts@[1]@) by {
                    assert(parts@[1]@.subrange(0, parts@[1]@.len() as int) == parts@[1]@);
                }
                out.push(point);
                assert(views(out@) =~= before.push(point@));
            }
        }
        i += 1;
    }
    assert(views(all@).take(i as int) == views(all@));
    out
}

/// No mount point comes from a line of a pseudo file system: each one that
/// is found is the mount point of a line whose type is none of them.
pub proof fn lemma_pseudo_filesystems_excluded(lines: Seq<Seq<u8>>)
    ensures
        forall|i: int|
            0 <= i < real_mounts(lines).len() ==> exists|k: int|
                0 <= k < lines.len() && fields(lines[k]).len() >= 3 && !is_pseudo(
                    fields(lines[k])[2],
                ) && fields(lines[k])[1] == #[trigger] real_mounts(lines)[i],
        (forall|k: int|
            0 <= k < lines.len() && fields(lines[k]).len() >= 3 ==> is_pseudo(
                #[trigger] fields(lines[k])[2],
            )) ==> real_mounts(lines).len() == 0,
    decreases lines.len(),
{
    if lines.len() > 0 {
        let front = lines.drop_last();
        lemma_pseudo_filesystems_excluded(front);
        let found = real_mounts(lines);
        assert forall|i: int| 0 <= i < found.len() implies exists|k: int|
            0 <= k < lines.len() && fields(lines[k]).len() >= 3 && !is_pseudo(fields(lines[k])[2])
                && fields(lines[k])[1] == #[trigger] found[i] by {
            if i < real_mounts(front).len() {
                assert(found[i] == real_mounts(front)[i]);
                let k = choose|k: int|
                    0 <= k < front.len() && fields(front[k]).len() >= 3 && !is_pseudo(
                        fields(front[k])[2],
                    ) && fields(front[k])[1] == real_mounts(front)[i];
                assert(lines[k] == front[k]);
            } else {
                let k = lines.len() - 1;
                assert(fields(lines[k])[1] == found[i]);
            }
        }
        if forall|k: int|
            0 <= k < lines.len() && fields(lines[k]).len() >= 3 ==> is_pseudo(
                #[trigger] fields(lines[k])[2],
            ) {
            assert forall|k: int| 0 <= k < front.len() && fields(front[k]).len() >= 3 implies is_pseudo(
                #[trigger] fields(front[k])[2],
            ) by {
                assert(lines[k] == front[k]);
            }
            if fields(lines.last()).len() >= 3 {
                assert(is_pseudo(fields(lines[lines.len() - 1])[2]));
            }
        }
    }
}

/// The name of the directory that the users of a file system share.
pub open spec fn shared_trash_name() -> Seq<u8> {
    ascii(".Trash"@)
}

/// What the name of a user's own trash directory begins with.
pub open spec fn private_trash_prefix() -> Seq<u8> {
    ascii(".Trash-"@)
}

/// The name of the home trash.
pub open spec fn home_trash_name() -> Seq<u8> {
    ascii("Trash"@)
}

/// The trash directory of the user `uid` below the shared `.Trash` of a file
/// system mounted at `topdir`.
pub open spec fn shared_trash_of(topdir: Seq<u8>, uid: u32) -> Seq<u8> {
    joined(joined(topdir, shared_trash_name()), digits(uid as nat))
}

/// The trash directory `.Trash-<uid>` of a file system mounted at `topdir`.
pub open spec fn private_trash_of(topdir: Seq<u8>, uid: u32) -> Seq<u8> {
    joined(topdir, private_trash_prefix() + digits(uid as nat))
}

/// The trash directory of the user `uid` below the shared `.Trash` of a file
/// system mounted at `topdir`.
pub fn shared_trash(topdir: &[u8], uid: u32) -> (out: Vec<u8>)
    ensures
        out@ == shared_trash_of(topdir@, uid),
{
    proof {
        reveal_strlit(".Trash");
    }
    let shared = join(topdir, literal(".Trash"));
    let mut user: Vec<u8> = Vec::new();
    push_u64(&mut user, uid as u64);
    join(shared.as_slice(), user.as_slice())
}

/// The trash directory `.Trash-<uid>` of a file system mounted at `topdir`.
pub fn private_trash(topdir: &[u8], uid: u32) -> (out: Vec<u8>)
    ensures
        out@ == private_trash_of(topdir@, uid),
{
    proof {
        reveal_strlit(".Trash-");
    }
    let mut name: Vec<u8> = Vec::new();
    append(&mut name, literal(".Trash-"));
    push_u64(&mut name, uid as u64);
    join(topdir, name.as_slice())
}

/// What was found at the two places of one file system.
#[derive(Debug, Clone, Copy, PartialEq, Eq)]
pub struct TopdirProbe {
    /// `.Trash/<uid>` exists.
    pub shared_exists: bool,
    /// `.Trash/<uid>/files` is a directory.
    pub shared_files_is_dir: bool,
    /// `.Trash/<uid>/info` is a directory.
    pub shared_info_is_dir: bool,
    /// `.Trash-<uid>` exists.
    pub private_exists: bool,
}

/// Whether a directory is laid out as a trash directory: both its `files`
/// and its `info` are directories.
pub fn is_valid_trash_dir(files_is_dir: bool, info_is_dir: bool) -> (valid: bool)
    ensures
        valid == (files_is_dir && info_is_dir),
{
    files_is_dir && info_is_dir
}

/// Whether the shared place counts: it exists and is laid out as a trash
/// directory.
pub open spec fn shared_counts(probe: TopdirProbe) -> bool {
    probe.shared_exists && probe.shared_files_is_dir && probe.shared_info_is_dir
}

/// The trash directory of the file system at `topdir`, if it has one: the
/// shared place where it counts, else the private one where it exists.
pub open spec fn topdir_trash_of(topdir: Seq<u8>, uid: u32, probe: TopdirProbe) -> Option<Seq<u8>> {
    if shared_counts(probe) {
        Some(shared_trash_of(topdir, uid))
    } else if probe.private_exists {
        Some(private_trash_of(topdir, uid))
    } else {
        None
    }
}

/// The trash directory of the file system at `topdir`, if it has one.
pub fn topdir_trash(topdir: &[u8], uid: u32, probe: &TopdirProbe) -> (out: Option<Vec<u8>>)
    ensures
        match out {
            Some(trash) => topdir_trash_of(topdir@, uid, *probe) == Some(trash@),
            None => topdir_trash_of(topdir@, uid, *probe) is None,
        },
{
    if probe.shared_exists && is_valid_trash_dir(
        probe.shared_files_is_dir,
        probe.shared_info_is_dir,
    ) {
        Some(shared_trash(topdir, uid))
    } else if probe.private_exists {
        Some(private_trash(topdir, uid))
    } else {
        None
    }
}

/// The two places are held to different standards. A shared place that lacks
/// `files/` or `info/` is never the answer, though it exists; a private place
/// that exists is the answer whenever the shared one does not count, with
/// nothing asked of what it holds.
pub proof fn lemma_validity_gate(topdir: Seq<u8>, uid: u32, probe: TopdirProbe)
    ensures
        probe.shared_exists && !(probe.shared_files_is_dir && probe.shared_info_is_dir)
            ==> topdir_trash_of(topdir, uid, probe) == if probe.private_exists {
            Some(private_trash_of(topdir, uid))
        } else {
            None
        },
        probe.private_exists && !shared_counts(probe) ==> topdir_trash_of(topdir, uid, probe)
            == Some(private_trash_of(topdir, uid)),
        shared_counts(probe) ==> topdir_trash_of(topdir, uid, probe) == Some(
            shared_trash_of(topdir, uid),
        ),
{
}

/// The trash directory that takes the file at `canonical_path`: that of the
/// directory which holds the file, where it has one, else the home trash. A
/// path without a directory above it, the root or the empty path, has none.
pub open spec fn trash_for(
    canonical_path: Seq<u8>,
    uid: u32,
    home_trash: Seq<u8>,
    probe: TopdirProbe,
) -> Option<Seq<u8>> {
    match parent_of(canonical_path) {
        Some(topdir) => match topdir_trash_of(topdir, uid, probe) {
            Some(trash) => Some(trash),
            None => Some(home_trash),
        },
        None => None,
    }
}

/// The trash directory that takes the file at `canonical_path`. `probe` says
/// what was found at the two places of the directory that holds the file.
pub fn get_trash_path_for_file(
    canonical_path: &[u8],
    uid: u32,
    home_trash: &[u8],
    probe: &TopdirProbe,
) -> (out: Option<Vec<u8>>)
    ensures
        match out {
            Some(trash) => trash_for(canonical_path@, uid, home_trash@, *probe) == Some(trash@),
            None => trash_for(canonical_path@, uid, home_trash@, *probe) is None,
        },
{
    match parent(canonical_path) {
        Some(topdir) => match topdir_trash(topdir.as_slice(), uid, probe) {
            Some(trash) => Some(trash),
            None => {
                assert(home_trash@.subrange(0, home_trash@.len() as int) == home_trash@);
                Some(copy_range(home_trash, 0, home_trash.len()))
            },
        },
        None => None,
    }
}

/// What was found for the mount point at `at`; nothing, where the list of
/// probes is too short.
pub open spec fn probe_at(probes: Seq<TopdirProbe>, at: int) -> TopdirProbe {
    if 0 <= at < probes.len() {
        probes[at]
    } else {
        TopdirProbe {
            shared_exists: false,
            shared_files_is_dir: false,
            shared_info_is_dir: false,
            private_exists: false,
        }
    }
}

/// The trash directories of the file systems mounted at `points`, in their
/// order, where `probes` says for each what was found.
pub open spec fn topdir_trashes(points: Seq<Seq<u8>>, uid: u32, probes: Seq<TopdirProbe>) -> Seq<
    Seq<u8>,
>
    decreases points.len(),
{
    if points.len() == 0 {
        Seq::empty()
    } else {
        let front = topdir_trashes(points.drop_last(), uid, probes);
        match topdir_trash_of(points.last(), uid, probe_at(probes, points.len() - 1)) {
            Some(trash) => front.push(trash),
            None => front,
        }
    }
}

/// The trash directories of the file systems mounted at `mount_points`, in
/// the order of the mount points. `probes` says for each mount point, in the
/// same order, what was found at its two places; a mount point without a
/// probe counts as one where nothing was found.
pub fn get_topdir_trash_paths(mount_points: &Vec<Vec<u8>>, uid: u32, probes: &Vec<TopdirProbe>) -> (out:
    Vec<Vec<u8>>)
    ensures
        views(out@) == topdir_trashes(views(mount_points@), uid, probes@),
{
    let mut out: Vec<Vec<u8>> = Vec::new();
    let mut i: usize = 0;
    assert(views(mount_points@).take(0).len() == 0);
    assert(views(out@) =~= Seq::<Seq<u8>>::empty());
    while i < mount_points.len()
        invariant
            i <= mount_points@.len(),
            views(out@) == topdir_trashes(views(mount_points@).take(i as int), uid, probes@),
        decreases mount_points@.len() - i,
    {
        let ghost shown = views(mount_points@).take(i + 1);
        let ghost before = views(out@);
        assert(shown.drop_last() == views(mount_points@).take(i as int));
        assert(shown.last() == mount_points@[i as int]@);
        let probe = if i < probes.len() {
            probes[i]
        } else {
            TopdirProbe {
                shared_exists: false,
                shared_files_is_dir: false,
                shared_info_is_dir: false,
                private_exists: false,
            }
        };
        assert(probe == probe_at(probes@, shown.len() - 1));
        match topdir_trash(mount_points[i].as_slice(), uid, &probe) {
            Some(trash) => {
                out.push(trash);
                assert(views(out@) =~= before.push(trash@));
            },
            None => {},
        }
        i += 1;
    }
    assert(views(mount_points@).take(i as int) == views(mount_points@));
    out
}

/// The items of a list, each once, in the order in which they first occur.
pub open spec fn distinct(items: Seq<Seq<u8>>) -> Seq<Seq<u8>>
    decreases items.len(),
{
    if items.len() == 0 {
        Seq::empty()
    } else if distinct(items.drop_last()).contains(items.last()) {
        distinct(items.drop_last())
    } else {
        distinct(items.drop_last()).push(items.last())
    }
}

/// All trash directories: the home trash first, then those of the mounted
/// file systems, each path once.
pub open spec fn all_trashes(home_trash: Seq<u8>, topdir_trashes: Seq<Seq<u8>>) -> Seq<Seq<u8>> {
    distinct(seq![home_trash] + topdir_trashes)
}

/// All trash directories: the home trash first, then those of the mounted
/// file systems, each path once.
pub fn get_all_trash_paths(home_trash: &[u8], topdir_trashes: &Vec<Vec<u8>>) -> (out: Vec<Vec<u8>>)
    ensures
        views(out@) == all_trashes(home_trash@, views(topdir_trashes@)),
        views(out@).no_duplicates(),
        views(out@).len() >= 1,
        views(out@)[0] == home_trash@,
        forall|path: Seq<u8>|
            views(out@).contains(path) <==> path == home_trash@ || views(topdir_trashes@).contains(
                path,
            ),
{
    let ghost all = seq![home_trash@] + views(topdir_trashes@);
    let mut out: Vec<Vec<u8>> = Vec::new();
    assert(home_trash@.subrange(0, home_trash@.len() as int) == home_trash@);
    out.push(copy_range(home_trash, 0, home_trash.len()));
    assert(all.take(1) =~= seq![home_trash@]);
    assert(all.take(1).drop_last() =~= Seq::<Seq<u8>>::empty());
    assert(distinct(all.take(1).drop_last()) =~= Seq::<Seq<u8>>::empty());
    assert(views(out@) =~= distinct(all.take(1)));
    let mut i: usize = 0;
    while i < topdir_trashes.len()
        invariant
            i <= topdir_trashes@.len(),
            all == seq![home_trash@] + views(topdir_trashes@),
            views(out@) == distinct(all.take(i + 1)),
        decreases topdir_trashes@.len() - i,
    {
        let ghost shown = all.take(i + 2);
        let ghost before = views(out@);
        assert(shown.drop_last() == all.take(i + 1));
        assert(shown.last() == topdir_trashes@[i as int]@);
        let path = topdir_trashes[i].as_slice();
        if !holds(&out, path) {
            out.push(copy_range(path, 0, path.len()));
            assert(path@.subrange(0, path@.len() as int) == path@);
            assert(views(out@) =~= before.push(path@));
        }
        i += 1;
    }
    assert(all.take(i + 1) == all);
    proof {
        lemma_distinct(all);
        assert(all[0] == home_trash@);
        assert forall|path: Seq<u8>|
            views(out@).contains(path) <==> path == home_trash@ || views(topdir_trashes@).contains(
                path,
            ) by {
            if all.contains(path) {
                let k = choose|k: int| 0 <= k < all.len() && all[k] == path;
                if k > 0 {
                    assert(views(topdir_trashes@)[k - 1] == path);
                }
            }
            if views(topdir_trashes@).contains(path) {
                let k = choose|k: int|
                    0 <= k < views(topdir_trashes@).len() && views(topdir_trashes@)[k] == path;
                assert(all[k + 1] == path);
            }
        }
    }
    out
}

/// What `distinct` keeps: every item, each once, the first one first.
pub proof fn lemma_distinct(items: Seq<Seq<u8>>)
    ensures
        distinct(items).no_duplicates(),
        forall|item: Seq<u8>| #[trigger] distinct(items).contains(item) ==> items.contains(item),
        forall|item: Seq<u8>| #[trigger] items.contains(item) ==> distinct(items).contains(item),
        distinct(items).len() <= items.len(),
        items.len() > 0 ==> distinct(items).len() > 0 && distinct(items)[0] == items[0],
    decreases items.len(),
{
    if items.len() > 0 {
        let front = items.drop_last();
        let last = items.last();
        let kept = distinct(items);
        lemma_distinct(front);
        assert forall|item: Seq<u8>| #[trigger] kept.contains(item) implies items.contains(item) by {
            {
                let i = choose|i: int| 0 <= i < kept.len() && kept[i] == item;
                if i < distinct(front).len() {
                    assert(distinct(front)[i] == item);
                    assert(distinct(front).contains(item));
                    let k = choose|k: int| 0 <= k < front.len() && front[k] == item;
                    assert(items[k] == item);
                } else {
                    assert(items[items.len() - 1] == item);
                }
            }
        }
        assert forall|item: Seq<u8>| #[trigger] items.contains(item) implies kept.contains(item) by {
            {
                let k = choose|k: int| 0 <= k < items.len() && items[k] == item;
                if k < front.len() {
                    assert(front[k] == item);
                    assert(front.contains(item));
                    let i = choose|i: int| 0 <= i < distinct(front).len() && distinct(front)[i] == item;
                    assert(kept[i] == item);
                } else if distinct(front).contains(last) {
                } else {
                    assert(kept[kept.len() - 1] == item);
                }
            }
        }
        if front.len() > 0 {
            assert(front[0] == items[0]);
        } else {
            assert(distinct(front).len() == 0);
            assert(kept[0] == items[0]);
        }
    }
}

/// The home trash under the user's data directory.
pub open spec fn home_trash_under(data_home: Seq<u8>) -> Seq<u8> {
    joined(data_home, home_trash_name())
}

/// The home trash under the user's data directory `data_home`.
pub fn home_trash_path(data_home: &[u8]) -> (out: Vec<u8>)
    ensures
        out@ == home_trash_under(data_home@),
{
    proof {
        reveal_strlit("Trash");
    }
    join(data_home, literal("Trash"))
}

/// Asks `xdg` for the user's data directory: `BaseDirectories::new`, then
/// `get_data_home`. Trusted, and nothing is claimed: the answer comes from
/// the environment, and there is none where no home directory is known.
#[verifier::external_body]
pub(crate) fn data_home() -> (home: Option<Vec<u8>>) {
    match xdg::BaseDirectories::new().get_data_home() {
        Some(path) => Some(path.into_os_string().into_encoded_bytes()),
        None => None,
    }
}

/// The home trash of the user who runs the program: `Trash` under the data
/// directory that the environment names, and nothing where it names none.
pub fn get_home_trash_path() -> (out: Option<Vec<u8>>)
    ensures
        out matches Some(trash) ==> exists|home: Seq<u8>| trash@ == #[trigger] home_trash_under(home),
{
    match data_home() {
        Some(home) => Some(home_trash_path(home.as_slice())),
        None => None,
    }
}

} // verus!
