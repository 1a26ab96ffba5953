use can::bytes::{
    append, comes_before, copy_range, ends_with, equal, find_from, find_last, literal, starts_with,
};
use can::lines::{holds, is_blank_byte, split_fields, split_lines};

fn texts(items: &[&str]) -> Vec<Vec<u8>> {
    items.iter().map(|item| item.as_bytes().to_vec()).collect()
}

#[test]
fn lines_end_at_line_feeds() {
    assert_eq!(split_lines(b"a\nb\nc"), texts(&["a", "b", "c"]));
    assert_eq!(split_lines(b"a\nb\n"), texts(&["a", "b"]));
}

#[test]
fn empty_lines_count_but_an_empty_end_does_not() {
    assert_eq!(split_lines(b""), Vec::<Vec<u8>>::new());
    assert_eq!(split_lines(b"\n"), texts(&[""]));
    assert_eq!(split_lines(b"\n\na\n\n"), texts(&["", "", "a", ""]));
}

#[test]
fn a_carriage_return_before_a_line_feed_is_dropped() {
    assert_eq!(split_lines(b"a\r\nb\r\n"), texts(&["a", "b"]));
    assert_eq!(split_lines(b"a\r\r\nb"), texts(&["a\r", "b"]));
}

#[test]
fn a_carriage_return_elsewhere_stays() {
    assert_eq!(split_lines(b"a\rb\nc\r"), texts(&["a\rb", "c\r"]));
}

#[test]
fn fields_are_parted_by_white_space() {
    assert_eq!(
        split_fields(b"/dev/sda1 /mnt/data ext4 rw,relatime 0 0"),
        texts(&["/dev/sda1", "/mnt/data", "ext4", "rw,relatime", "0", "0"])
    );
    assert_eq!(split_fields(b"  a \t b\t\t"), texts(&["a", "b"]));
    assert_eq!(split_fields(b""), Vec::<Vec<u8>>::new());
    assert_eq!(split_fields(b" \t "), Vec::<Vec<u8>>::new());
    assert_eq!(split_fields(b"one"), texts(&["one"]));
}

#[test]
fn blank_bytes() {
    for byte in [b' ', b'\t', b'\n', 0x0b, 0x0c, b'\r'] {
        assert!(is_blank_byte(byte));
    }
    for byte in [b'a', 0, 8, 14, 0xa0, b'\\'] {
        assert!(!is_blank_byte(byte));
    }
}

#[test]
fn membership_in_a_list() {
    let list = texts(&["a", "bc", ""]);
    assert!(holds(&list, b"bc"));
    assert!(holds(&list, b""));
    assert!(!holds(&list, b"b"));
    assert!(!holds(&Vec::new(), b"a"));
}

#[test]
fn byte_string_basics() {
    let mut text = b"ab".to_vec();
    append(&mut text, b"cd");
    assert_eq!(text, b"abcd".to_vec());
    assert_eq!(copy_range(b"abcdef", 2, 4), b"cd".to_vec());
    assert_eq!(copy_range(b"abcdef", 3, 3), Vec::<u8>::new());
    assert!(equal(b"abc", b"abc"));
    assert!(!equal(b"abc", b"abd"));
    assert!(!equal(b"abc", b"ab"));
    assert_eq!(literal("files"), b"files");
}

#[test]
fn prefixes_and_suffixes() {
    assert!(starts_with(b"Path=x", b"Path="));
    assert!(starts_with(b"Path=", b"Path="));
    assert!(starts_with(b"abc", b""));
    assert!(!starts_with(b"Pat", b"Path="));
    assert!(!starts_with(b"path=x", b"Path="));
    assert!(ends_with(b"a.trashinfo", b".trashinfo"));
    assert!(!ends_with(b"a.trashinfo2", b".trashinfo"));
    assert!(!ends_with(b"info", b".trashinfo"));
}

#[test]
fn finding_bytes() {
    assert_eq!(find_from(b"a b c", b' ', 0), 1);
    assert_eq!(find_from(b"a b c", b' ', 2), 3);
    assert_eq!(find_from(b"a b c", b' ', 4), 5);
    assert_eq!(find_from(b"abc", b'x', 0), 3);
    assert_eq!(find_last(b"a.tar.gz", b'.'), Some(5));
    assert_eq!(find_last(b".bashrc", b'.'), Some(0));
    assert_eq!(find_last(b"README", b'.'), None);
}

#[test]
fn the_order_of_byte_strings() {
    assert!(comes_before(b"a", b"b"));
    assert!(comes_before(b"a", b"ab"));
    assert!(comes_before(b"", b"a"));
    assert!(comes_before(b"Z", b"a"));
    assert!(comes_before(b"a(1).txt", b"a.txt"));
    assert!(!comes_before(b"a", b"a"));
    assert!(!comes_before(b"b", b"a"));
    assert!(!comes_before(b"ab", b"a"));
    assert!(!comes_before(b"", b""));
}
