use can::dirsizes::{
    get_trashinfo_mtime, load, parse_line, render_kept, update_directorysizes_cache, upsert,
    DirectorySizesCacheEntry,
};

fn names(items: &[&str]) -> Vec<Vec<u8>> {
    items.iter().map(|item| item.as_bytes().to_vec()).collect()
}

fn entry(name: &str, size: u64, mtime: i64) -> DirectorySizesCacheEntry {
    DirectorySizesCacheEntry {
        directory_name: name.as_bytes().to_vec(),
        size_bytes: size,
        info_mtime_seconds: mtime,
    }
}

#[test]
fn a_trashed_directory_gets_its_line() {
    let text = update_directorysizes_cache(b"", b"proj", 4096, 1700000000, &names(&["proj"]));
    assert_eq!(text, b"4096 1700000000 proj\n".to_vec());
}

#[test]
fn the_name_is_percent_encoded() {
    let text = update_directorysizes_cache(b"", b"my proj", 1, 2, &names(&["my proj"]));
    assert_eq!(text, b"1 2 my%20proj\n".to_vec());
}

#[test]
fn other_lines_stay_in_their_order() {
    let text = update_directorysizes_cache(
        b"10 100 a\n20 200 b\n",
        b"c",
        30,
        300,
        &names(&["c", "b", "a", "file.txt"]),
    );
    assert_eq!(text, b"10 100 a\n20 200 b\n30 300 c\n".to_vec());
}

#[test]
fn a_line_of_the_same_name_is_renewed_in_its_place() {
    let text = update_directorysizes_cache(
        b"10 100 a\n20 200 b\n",
        b"a",
        11,
        111,
        &names(&["a", "b"]),
    );
    assert_eq!(text, b"11 111 a\n20 200 b\n".to_vec());
}

#[test]
fn lines_of_directories_that_are_gone_are_dropped() {
    let text = update_directorysizes_cache(
        b"10 100 a\n20 200 gone\n30 300 c\n",
        b"d",
        40,
        400,
        &names(&["a", "c", "d"]),
    );
    assert_eq!(text, b"10 100 a\n30 300 c\n40 400 d\n".to_vec());
    let again = update_directorysizes_cache(&text, b"d", 40, 400, &names(&["c", "d"]));
    assert_eq!(again, b"30 300 c\n40 400 d\n".to_vec());
}

#[test]
fn the_new_line_is_dropped_too_where_the_directory_is_not_there() {
    let text = update_directorysizes_cache(b"10 100 a\n", b"d", 40, 400, &names(&["a"]));
    assert_eq!(text, b"10 100 a\n".to_vec());
}

#[test]
fn presence_goes_by_the_name_as_it_is() {
    let text = update_directorysizes_cache(b"", b"a%20b", 1, 2, &names(&["a%20b"]));
    assert_eq!(text, b"1 2 a%2520b\n".to_vec());
    let other = update_directorysizes_cache(b"", b"a%20b", 1, 2, &names(&["a b"]));
    assert_eq!(other, Vec::<u8>::new());
}

#[test]
fn lines_that_are_no_entries_are_dropped() {
    let text = update_directorysizes_cache(
        b"\nnot a line\n-1 5 a\n5 x b\n7 8\n9 -3 c\n",
        b"d",
        4,
        5,
        &names(&["a", "b", "c", "d", "line"]),
    );
    assert_eq!(text, b"9 -3 c\n4 5 d\n".to_vec());
}

#[test]
fn of_two_lines_with_one_name_the_later_counts() {
    let entries = load(b"1 1 a\n2 2 b\n3 3 a\n");
    assert_eq!(entries, vec![entry("a", 3, 3), entry("b", 2, 2)]);
}

#[test]
fn a_line_is_read_field_by_field() {
    assert_eq!(parse_line(b"4096 1700000000 proj"), Some(entry("proj", 4096, 1700000000)));
    assert_eq!(parse_line(b"+1 -2 a%20b"), Some(entry("a b", 1, -2)));
    assert_eq!(parse_line(b"1 2 a b"), Some(entry("a b", 1, 2)));
    assert_eq!(parse_line(b"1 2 "), Some(entry("", 1, 2)));
    assert_eq!(parse_line(b"1 2"), None);
    assert_eq!(parse_line(b"1"), None);
    assert_eq!(parse_line(b""), None);
    assert_eq!(parse_line(b"1  2 a"), None);
    assert_eq!(parse_line(b" 1 2 a"), None);
    assert_eq!(parse_line(b"18446744073709551616 2 a"), None);
    assert_eq!(parse_line(b"1 9223372036854775808 a"), None);
}

#[test]
fn what_was_written_reads_as_it_was() {
    let entries = vec![
        entry("a b", 0, 0),
        entry("100%", u64::MAX, i64::MIN),
        entry("\u{65e5}\u{672c}", 12, i64::MAX),
        entry("", 1, -1),
    ];
    let present = names(&["a b", "100%", "\u{65e5}\u{672c}", ""]);
    let text = render_kept(&entries, &present);
    assert_eq!(
        text,
        b"0 0 a%20b\n18446744073709551615 -9223372036854775808 100%25\n12 9223372036854775807 %E6%97%A5%E6%9C%AC\n1 -1 \n".to_vec()
    );
    assert_eq!(load(&text), entries);
}

#[test]
fn upsert_replaces_or_appends() {
    let mut entries = vec![entry("a", 1, 1), entry("b", 2, 2)];
    upsert(&mut entries, entry("b", 5, 6));
    upsert(&mut entries, entry("c", 7, 8));
    assert_eq!(entries, vec![entry("a", 1, 1), entry("b", 5, 6), entry("c", 7, 8)]);
}

#[test]
fn the_time_is_zero_where_it_is_not_to_be_had() {
    assert_eq!(get_trashinfo_mtime(None), 0);
    assert_eq!(get_trashinfo_mtime(Some(0)), 0);
    assert_eq!(get_trashinfo_mtime(Some(1700000000)), 1700000000);
    assert_eq!(get_trashinfo_mtime(Some(i64::MAX as u64)), i64::MAX);
    assert_eq!(get_trashinfo_mtime(Some(i64::MAX as u64 + 1)), i64::MIN);
    assert_eq!(get_trashinfo_mtime(Some(u64::MAX)), -1);
}
