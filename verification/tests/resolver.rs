use can::resolver::{
    get_all_trash_paths, get_home_trash_path, get_topdir_trash_paths, get_trash_path_for_file,
    home_trash_path, is_pseudo_filesystem, is_valid_trash_dir, mount_points, private_trash,
    shared_trash, topdir_trash, TopdirProbe,
};

const HOME_TRASH: &[u8] = b"/home/u/.local/share/Trash";

const NOTHING: TopdirProbe = TopdirProbe {
    shared_exists: false,
    shared_files_is_dir: false,
    shared_info_is_dir: false,
    private_exists: false,
};

fn names(items: &[&str]) -> Vec<Vec<u8>> {
    items.iter().map(|item| item.as_bytes().to_vec()).collect()
}

#[test]
fn pseudo_file_systems_are_known() {
    for name in [
        "proc", "sysfs", "tmpfs", "devpts", "devtmpfs", "cgroup", "cgroup2", "securityfs",
        "pstore", "bpf", "tracefs", "debugfs", "hugetlbfs", "mqueue", "autofs", "configfs",
        "fusectl", "selinuxfs", "rpc_pipefs", "binfmt_misc",
    ] {
        assert!(is_pseudo_filesystem(name.as_bytes()));
    }
    for name in ["ext4", "btrfs", "vfat", "nfs", "overlay", "", "proc2", "PROC", "tmpf"] {
        assert!(!is_pseudo_filesystem(name.as_bytes()));
    }
}

#[test]
fn pseudo_file_systems_give_no_mount_point() {
    let table = b"proc /proc proc rw,nosuid 0 0\n\
tmpfs /run tmpfs rw 0 0\n\
/dev/sda1 / ext4 rw,relatime 0 0\n\
sysfs /sys sysfs rw 0 0\n\
/dev/sdb1 /mnt/data btrfs rw 0 0\n\
cgroup2 /sys/fs/cgroup cgroup2 rw 0 0\n";
    assert_eq!(mount_points(table), names(&["/", "/mnt/data"]));
}

#[test]
fn a_table_of_pseudo_file_systems_gives_nothing() {
    assert_eq!(
        mount_points(b"proc /proc proc rw 0 0\ntmpfs /tmp tmpfs rw 0 0\n"),
        Vec::<Vec<u8>>::new()
    );
    assert_eq!(mount_points(b""), Vec::<Vec<u8>>::new());
}

#[test]
fn short_lines_give_no_mount_point() {
    assert_eq!(mount_points(b"\n/dev/sda1\n/dev/sda1 /mnt\n/dev/sda2 /data ext4\n"), names(&["/data"]));
}

#[test]
fn the_two_places_of_a_file_system() {
    assert_eq!(shared_trash(b"/mnt/data", 1000), b"/mnt/data/.Trash/1000".to_vec());
    assert_eq!(private_trash(b"/mnt/data", 1000), b"/mnt/data/.Trash-1000".to_vec());
    assert_eq!(shared_trash(b"/", 0), b"/.Trash/0".to_vec());
    assert_eq!(private_trash(b"/", u32::MAX), b"/.Trash-4294967295".to_vec());
}

#[test]
fn a_trash_directory_needs_both_directories() {
    assert!(is_valid_trash_dir(true, true));
    assert!(!is_valid_trash_dir(true, false));
    assert!(!is_valid_trash_dir(false, true));
    assert!(!is_valid_trash_dir(false, false));
}

#[test]
fn the_shared_place_counts_only_where_it_is_laid_out() {
    let laid_out = TopdirProbe {
        shared_exists: true,
        shared_files_is_dir: true,
        shared_info_is_dir: true,
        private_exists: true,
    };
    assert_eq!(topdir_trash(b"/mnt/data", 1000, &laid_out), Some(b"/mnt/data/.Trash/1000".to_vec()));
    let without_info = TopdirProbe { shared_info_is_dir: false, ..laid_out };
    assert_eq!(
        topdir_trash(b"/mnt/data", 1000, &without_info),
        Some(b"/mnt/data/.Trash-1000".to_vec())
    );
    let without_files = TopdirProbe { shared_files_is_dir: false, private_exists: false, ..laid_out };
    assert_eq!(topdir_trash(b"/mnt/data", 1000, &without_files), None);
}

#[test]
fn the_private_place_counts_wherever_it_exists() {
    let probe = TopdirProbe { private_exists: true, ..NOTHING };
    assert_eq!(topdir_trash(b"/mnt/data", 1000, &probe), Some(b"/mnt/data/.Trash-1000".to_vec()));
    assert_eq!(topdir_trash(b"/mnt/data", 1000, &NOTHING), None);
}

#[test]
fn a_file_goes_to_the_trash_of_its_directory() {
    let probe = TopdirProbe { private_exists: true, ..NOTHING };
    assert_eq!(
        get_trash_path_for_file(b"/mnt/data/report.txt", 1000, HOME_TRASH, &probe),
        Some(b"/mnt/data/.Trash-1000".to_vec())
    );
}

#[test]
fn a_file_goes_to_the_home_trash_where_its_directory_has_none() {
    assert_eq!(
        get_trash_path_for_file(b"/home/u/doc.txt", 1000, HOME_TRASH, &NOTHING),
        Some(HOME_TRASH.to_vec())
    );
}

#[test]
fn the_root_goes_nowhere() {
    assert_eq!(get_trash_path_for_file(b"/", 1000, HOME_TRASH, &NOTHING), None);
    assert_eq!(get_trash_path_for_file(b"", 1000, HOME_TRASH, &NOTHING), None);
}

#[test]
fn each_mount_point_gives_one_trash_at_most() {
    let points = names(&["/", "/mnt/a", "/mnt/b", "/mnt/c"]);
    let probes = vec![
        NOTHING,
        TopdirProbe { private_exists: true, ..NOTHING },
        TopdirProbe {
            shared_exists: true,
            shared_files_is_dir: true,
            shared_info_is_dir: true,
            private_exists: true,
        },
        TopdirProbe { shared_exists: true, shared_files_is_dir: true, ..NOTHING },
    ];
    assert_eq!(
        get_topdir_trash_paths(&points, 1000, &probes),
        names(&["/mnt/a/.Trash-1000", "/mnt/b/.Trash/1000"])
    );
}

#[test]
fn a_mount_point_without_a_probe_gives_none() {
    let points = names(&["/mnt/a", "/mnt/b"]);
    let probes = vec![TopdirProbe { private_exists: true, ..NOTHING }];
    assert_eq!(get_topdir_trash_paths(&points, 7, &probes), names(&["/mnt/a/.Trash-7"]));
}

#[test]
fn all_trash_directories_start_with_the_home_trash() {
    let found = names(&["/mnt/a/.Trash-1000", "/mnt/b/.Trash/1000"]);
    assert_eq!(
        get_all_trash_paths(HOME_TRASH, &found),
        names(&["/home/u/.local/share/Trash", "/mnt/a/.Trash-1000", "/mnt/b/.Trash/1000"])
    );
    assert_eq!(get_all_trash_paths(HOME_TRASH, &Vec::new()), names(&["/home/u/.local/share/Trash"]));
}

#[test]
fn each_trash_directory_is_listed_once() {
    let found = names(&[
        "/mnt/a/.Trash-1000",
        "/home/u/.local/share/Trash",
        "/mnt/a/.Trash-1000",
        "/mnt/b/.Trash-1000",
    ]);
    assert_eq!(
        get_all_trash_paths(HOME_TRASH, &found),
        names(&["/home/u/.local/share/Trash", "/mnt/a/.Trash-1000", "/mnt/b/.Trash-1000"])
    );
}

#[test]
fn the_home_trash_lies_under_the_data_directory() {
    assert_eq!(home_trash_path(b"/home/u/.local/share"), HOME_TRASH.to_vec());
    assert_eq!(home_trash_path(b"/home/u/.local/share/"), HOME_TRASH.to_vec());
}

#[test]
fn the_home_trash_of_this_user_is_called_trash() {
    match get_home_trash_path() {
        Some(path) => {
            assert!(path.ends_with(b"/Trash"));
            assert!(path.len() > 6);
        },
        None => {},
    }
}
