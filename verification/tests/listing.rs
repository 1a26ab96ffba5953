use can::layout::item_name;
use can::listing::{format_entry, get_all_trash_entries, list, sort_entries, InfoFile, TrashEntry};

const TRASH: &[u8] = b"/home/u/.local/share/Trash";
const FILES: &[u8] = b"/home/u/.local/share/Trash/files";

fn entry(name: &str, original: &str, date: &str) -> TrashEntry {
    TrashEntry {
        name: name.as_bytes().to_vec(),
        path: [FILES, b"/", name.as_bytes()].concat(),
        info_path: [TRASH, b"/info/", name.as_bytes(), b".trashinfo"].concat(),
        original_path: original.as_bytes().to_vec(),
        deletion_date: date.as_bytes().to_vec(),
    }
}

fn names(entries: &[TrashEntry]) -> Vec<String> {
    entries.iter().map(|entry| String::from_utf8(entry.name.clone()).unwrap()).collect()
}

#[test]
fn an_info_file_names_its_item() {
    assert_eq!(item_name(b"report.txt.trashinfo"), Some(b"report.txt".to_vec()));
    assert_eq!(item_name(b"x.trashinfo.trashinfo"), Some(b"x.trashinfo".to_vec()));
    assert_eq!(item_name(b".trashinfo"), Some(Vec::new()));
    assert_eq!(item_name(b"report.txt"), None);
    assert_eq!(item_name(b"report.trashinfo.tmp"), None);
}

#[test]
fn the_item_of_an_info_file_lies_in_files() {
    assert_eq!(
        TrashEntry::content_path(FILES, b"/home/u/.local/share/Trash/info/a b.txt.trashinfo"),
        Some(b"/home/u/.local/share/Trash/files/a b.txt".to_vec())
    );
    assert_eq!(TrashEntry::content_path(FILES, b"/home/u/.local/share/Trash/info/notes"), None);
    assert_eq!(TrashEntry::content_path(FILES, b"/"), None);
}

#[test]
fn an_entry_is_made_of_the_info_file() {
    let content = b"[Trash Info]\nPath=doc.txt\nDeletionDate=2024-05-06T07:08:09\n";
    let found = TrashEntry::from_paths(
        FILES,
        b"/home/u/.local/share/Trash/info/doc(1).txt.trashinfo",
        TRASH,
        true,
        Some(content),
    );
    assert_eq!(
        found,
        Some(TrashEntry {
            name: b"doc(1).txt".to_vec(),
            path: b"/home/u/.local/share/Trash/files/doc(1).txt".to_vec(),
            info_path: b"/home/u/.local/share/Trash/info/doc(1).txt.trashinfo".to_vec(),
            original_path: b"/home/u/.local/share/doc.txt".to_vec(),
            deletion_date: b"2024-05-06T07:08:09".to_vec(),
        })
    );
}

#[test]
fn an_info_file_without_its_item_is_passed_over() {
    let content = b"[Trash Info]\nPath=doc.txt\nDeletionDate=2024-05-06T07:08:09\n";
    let info = b"/home/u/.local/share/Trash/info/doc.txt.trashinfo";
    assert_eq!(TrashEntry::from_paths(FILES, info, TRASH, false, Some(content)), None);
    assert_eq!(TrashEntry::from_paths(FILES, info, TRASH, true, None), None);
    assert_eq!(
        TrashEntry::from_paths(FILES, b"/home/u/.local/share/Trash/info/doc.txt", TRASH, true, Some(content)),
        None
    );
}

#[test]
fn an_entry_of_an_empty_info_file_has_empty_fields() {
    let found = TrashEntry::from_paths(
        FILES,
        b"/home/u/.local/share/Trash/info/x.trashinfo",
        TRASH,
        true,
        Some(b""),
    )
    .unwrap();
    assert_eq!(found.name, b"x".to_vec());
    assert_eq!(found.original_path, Vec::<u8>::new());
    assert_eq!(found.deletion_date, Vec::<u8>::new());
}

#[test]
fn entries_are_sorted_by_name() {
    let entries = vec![
        entry("b", "/x/b", "3"),
        entry("a.txt", "/x/a.txt", "2"),
        entry("a(1).txt", "/x/a.txt", "1"),
        entry("Z", "/x/Z", "4"),
        entry("", "/x/", "5"),
    ];
    assert_eq!(names(&sort_entries(entries)), vec!["", "Z", "a(1).txt", "a.txt", "b"]);
}

#[test]
fn entries_of_one_name_keep_their_order() {
    let entries = vec![
        entry("same", "/second/same", "2"),
        entry("a", "/a", "0"),
        entry("same", "/first/same", "1"),
        entry("same", "/third/same", "3"),
    ];
    let sorted = sort_entries(entries);
    assert_eq!(names(&sorted), vec!["a", "same", "same", "same"]);
    assert_eq!(sorted[1].original_path, b"/second/same".to_vec());
    assert_eq!(sorted[2].original_path, b"/first/same".to_vec());
    assert_eq!(sorted[3].original_path, b"/third/same".to_vec());
}

#[test]
fn sorting_nothing_gives_nothing() {
    assert_eq!(sort_entries(Vec::new()), Vec::<TrashEntry>::new());
}

#[test]
fn a_line_is_the_name_or_all_there_is_to_say() {
    let item = entry("doc.txt", "/home/u/doc.txt", "2024-05-06T07:08:09");
    assert_eq!(format_entry(&item, false), b"doc.txt".to_vec());
    assert_eq!(
        format_entry(&item, true),
        b"doc.txt (deleted: 2024-05-06T07:08:09, original: /home/u/doc.txt)".to_vec()
    );
}

#[test]
fn a_listing_has_one_line_for_each_entry() {
    let entries = vec![entry("b", "/x/b", "2"), entry("a", "/x/a", "1")];
    assert_eq!(list(entries.clone(), false), vec![b"a".to_vec(), b"b".to_vec()]);
    assert_eq!(
        list(entries, true),
        vec![
            b"a (deleted: 1, original: /x/a)".to_vec(),
            b"b (deleted: 2, original: /x/b)".to_vec()
        ]
    );
}

#[test]
fn an_empty_trash_is_said_to_be_empty() {
    assert_eq!(list(Vec::new(), false), vec![b"Trash is empty".to_vec()]);
    assert_eq!(list(Vec::new(), true), vec![b"Trash is empty".to_vec()]);
}

#[test]
fn the_entries_of_all_trash_directories_are_collected() {
    let found = vec![
        InfoFile {
            trash: TRASH.to_vec(),
            info_path: b"/home/u/.local/share/Trash/info/a.trashinfo".to_vec(),
            present: true,
            content: Some(b"[Trash Info]\nPath=a\nDeletionDate=1\n".to_vec()),
        },
        InfoFile {
            trash: TRASH.to_vec(),
            info_path: b"/home/u/.local/share/Trash/info/orphan.trashinfo".to_vec(),
            present: false,
            content: Some(b"[Trash Info]\nPath=orphan\nDeletionDate=2\n".to_vec()),
        },
        InfoFile {
            trash: TRASH.to_vec(),
            info_path: b"/home/u/.local/share/Trash/info/unreadable.trashinfo".to_vec(),
            present: true,
            content: None,
        },
        InfoFile {
            trash: TRASH.to_vec(),
            info_path: b"/home/u/.local/share/Trash/info/a.trashinfo.tmp".to_vec(),
            present: true,
            content: Some(Vec::new()),
        },
        InfoFile {
            trash: b"/mnt/data/.Trash-1000".to_vec(),
            info_path: b"/mnt/data/.Trash-1000/info/a.trashinfo".to_vec(),
            present: true,
            content: Some(b"[Trash Info]\nPath=%2Fmnt%2Fdata%2Fa\nDeletionDate=3\n".to_vec()),
        },
    ];
    let entries = get_all_trash_entries(&found);
    assert_eq!(
        entries,
        vec![
            TrashEntry {
                name: b"a".to_vec(),
                path: b"/home/u/.local/share/Trash/files/a".to_vec(),
                info_path: b"/home/u/.local/share/Trash/info/a.trashinfo".to_vec(),
                original_path: b"/home/u/.local/share/a".to_vec(),
                deletion_date: b"1".to_vec(),
            },
            TrashEntry {
                name: b"a".to_vec(),
                path: b"/mnt/data/.Trash-1000/files/a".to_vec(),
                info_path: b"/mnt/data/.Trash-1000/info/a.trashinfo".to_vec(),
                original_path: b"/mnt/data/a".to_vec(),
                deletion_date: b"3".to_vec(),
            },
        ]
    );
    assert_eq!(get_all_trash_entries(&Vec::new()), Vec::<TrashEntry>::new());
}
