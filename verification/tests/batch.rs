use can::batch::{move_files_to_trash, platform, PathCheck, Platform};
use can::errors::TrashError;

fn found(path: &str) -> PathCheck {
    PathCheck { exists: true, canonical: Some(path.as_bytes().to_vec()) }
}

#[test]
fn paths_that_are_all_there_are_all_moved() {
    let checks = vec![found("/home/u/a"), found("/home/u/b c")];
    assert_eq!(
        move_files_to_trash(&checks, false),
        Ok(vec![b"/home/u/a".to_vec(), b"/home/u/b c".to_vec()])
    );
    assert_eq!(move_files_to_trash(&Vec::new(), false), Ok(Vec::new()));
}

#[test]
fn a_missing_path_stops_the_run() {
    let checks = vec![found("/home/u/a"), PathCheck { exists: false, canonical: None }, found("/b")];
    assert_eq!(move_files_to_trash(&checks, false), Err((1, TrashError::PathNotFound)));
}

#[test]
fn a_missing_path_is_missing_though_it_was_resolved() {
    let checks = vec![PathCheck { exists: false, canonical: Some(b"/a".to_vec()) }];
    assert_eq!(move_files_to_trash(&checks, false), Err((0, TrashError::PathNotFound)));
}

#[test]
fn a_path_that_cannot_be_resolved_stops_the_run() {
    let checks = vec![found("/home/u/a"), found("/b"), PathCheck { exists: true, canonical: None }];
    assert_eq!(move_files_to_trash(&checks, false), Err((2, TrashError::PathResolutionError)));
}

#[test]
fn the_first_refusal_is_reported() {
    let checks = vec![
        found("/a"),
        PathCheck { exists: true, canonical: None },
        PathCheck { exists: false, canonical: None },
    ];
    assert_eq!(move_files_to_trash(&checks, false), Err((1, TrashError::PathResolutionError)));
}

#[test]
fn a_double_quote_is_refused_where_paths_are_quoted() {
    let checks = vec![found("/home/u/a"), found("/home/u/say \"hi\"")];
    assert_eq!(move_files_to_trash(&checks, true), Err((1, TrashError::PathResolutionError)));
    assert_eq!(
        move_files_to_trash(&checks, false),
        Ok(vec![b"/home/u/a".to_vec(), b"/home/u/say \"hi\"".to_vec()])
    );
}

#[test]
fn two_platforms_are_known() {
    assert_eq!(platform(b"linux"), Ok(Platform::Linux));
    assert_eq!(platform(b"macos"), Ok(Platform::MacOs));
    for other in ["windows", "freebsd", "", "Linux", "linux "] {
        assert_eq!(platform(other.as_bytes()), Err(TrashError::UnsupportedPlatform));
    }
}
