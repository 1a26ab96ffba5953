use can::macos::{can_quote, empty_trash, move_file_to_trash};

#[test]
fn delete_script_names_every_file() {
    let files = vec![b"/Users/u/a.txt".to_vec(), b"/Users/u/b c.txt".to_vec()];
    assert_eq!(
        move_file_to_trash(&files),
        b"tell application \"Finder\" to delete { POSIX file \"/Users/u/a.txt\", POSIX file \"/Users/u/b c.txt\"}".to_vec()
    );
}

#[test]
fn delete_script_for_one_file() {
    let files = vec![b"/Users/u/a.txt".to_vec()];
    assert_eq!(
        move_file_to_trash(&files),
        b"tell application \"Finder\" to delete { POSIX file \"/Users/u/a.txt\"}".to_vec()
    );
}

#[test]
fn a_path_with_a_double_quote_cannot_be_quoted() {
    assert!(can_quote(b"/Users/u/plain"));
    assert!(!can_quote(b"/Users/u/say \"hi\""));
}

#[test]
fn empty_script_is_fixed() {
    assert_eq!(empty_trash(), b"tell application \"Finder\" to empty trash".to_vec());
}
