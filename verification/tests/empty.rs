use can::empty::{empty_targets, empty_trash, removal_of, EmptyTargets, Removal};
use can::layout::{cache_file, cache_temp, files_dir, info_dir};

fn targets(trash: &str) -> EmptyTargets {
    EmptyTargets {
        files_dir: format!("{}/files", trash).into_bytes(),
        info_dir: format!("{}/info", trash).into_bytes(),
        cache_file: format!("{}/directorysizes", trash).into_bytes(),
    }
}

#[test]
fn the_parts_of_a_trash_directory() {
    assert_eq!(files_dir(b"/t/Trash"), b"/t/Trash/files".to_vec());
    assert_eq!(info_dir(b"/t/Trash"), b"/t/Trash/info".to_vec());
    assert_eq!(cache_file(b"/t/Trash"), b"/t/Trash/directorysizes".to_vec());
    assert_eq!(cache_temp(b"/t/Trash"), b"/t/Trash/directorysizes.tmp".to_vec());
}

#[test]
fn each_trash_directory_is_emptied_once() {
    let paths = vec![
        b"/home/u/.local/share/Trash".to_vec(),
        b"/mnt/a/.Trash-1000".to_vec(),
        b"/home/u/.local/share/Trash".to_vec(),
    ];
    assert_eq!(
        empty_targets(&paths),
        vec![targets("/home/u/.local/share/Trash"), targets("/mnt/a/.Trash-1000")]
    );
    assert_eq!(empty_targets(&Vec::new()), Vec::<EmptyTargets>::new());
}

#[test]
fn directories_go_with_all_they_hold() {
    assert_eq!(removal_of(true), Removal::Tree);
    assert_eq!(removal_of(false), Removal::File);
}

#[test]
fn a_clean_run_says_that_the_trash_was_emptied() {
    for verbose in [false, true] {
        let summary = empty_trash(&[true, true, true], verbose);
        assert_eq!(summary.failed, 0);
        assert_eq!(summary.warning, None);
        assert_eq!(summary.message, Some(b"Trash emptied".to_vec()));
    }
    assert_eq!(empty_trash(&[], false).message, Some(b"Trash emptied".to_vec()));
}

#[test]
fn failures_are_counted_and_warned_of() {
    let summary = empty_trash(&[true, false, true, false, false], false);
    assert_eq!(summary.failed, 3);
    assert_eq!(
        summary.warning,
        Some(b"Warning: Some items could not be removed from trash".to_vec())
    );
    assert_eq!(summary.message, None);
}

#[test]
fn a_verbose_run_says_both() {
    let summary = empty_trash(&[false], true);
    assert_eq!(summary.failed, 1);
    assert_eq!(
        summary.warning,
        Some(b"Warning: Some items could not be removed from trash".to_vec())
    );
    assert_eq!(summary.message, Some(b"Trash emptied".to_vec()));
}
