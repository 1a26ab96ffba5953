use can::trashinfo::{create_atomic_trashinfo, decode, encode, encode_at, TrashInfoRecord};

const HOME_TRASH: &[u8] = b"/home/u/.local/share/Trash";
const DATE: &[u8] = b"2024-05-06T07:08:09";

fn is_date(text: &[u8]) -> bool {
    if text.len() < 19 {
        return false;
    }
    let (year, rest) = text.split_at(text.len() - 15);
    let year_is_plain = year.len() == 4 && year.iter().all(u8::is_ascii_digit);
    let year_is_signed = year.len() >= 5
        && (year[0] == b'+' || year[0] == b'-')
        && year[1..].iter().all(u8::is_ascii_digit);
    let shape = b"-dd-ddTdd:dd:dd";
    let rest_fits = rest
        .iter()
        .zip(shape.iter())
        .all(|(byte, mark)| if *mark == b'd' { byte.is_ascii_digit() } else { byte == mark });
    (year_is_plain || year_is_signed) && rest_fits
}

#[test]
fn topdir_trash_stores_the_absolute_path() {
    let text = encode_at(b"/mnt/data/report.txt", b"/mnt/data/.Trash-1000", false, DATE);
    assert_eq!(
        text,
        b"[Trash Info]\nPath=%2Fmnt%2Fdata%2Freport.txt\nDeletionDate=2024-05-06T07:08:09\n".to_vec()
    );
    let record = decode(&text, b"/mnt/data/.Trash-1000");
    assert_eq!(record.original_path, b"/mnt/data/report.txt".to_vec());
    assert_eq!(record.deletion_date, DATE.to_vec());
}

#[test]
fn home_trash_stores_the_relative_path() {
    let text = encode_at(b"/home/u/.local/share/doc.txt", HOME_TRASH, true, DATE);
    assert_eq!(
        text,
        b"[Trash Info]\nPath=doc.txt\nDeletionDate=2024-05-06T07:08:09\n".to_vec()
    );
    let record = decode(&text, HOME_TRASH);
    assert_eq!(record.original_path, b"/home/u/.local/share/doc.txt".to_vec());
}

#[test]
fn home_trash_stores_the_absolute_path_of_what_lies_elsewhere() {
    let text = encode_at(b"/home/u/doc.txt", HOME_TRASH, true, DATE);
    assert_eq!(
        text,
        b"[Trash Info]\nPath=%2Fhome%2Fu%2Fdoc.txt\nDeletionDate=2024-05-06T07:08:09\n".to_vec()
    );
    assert_eq!(decode(&text, HOME_TRASH).original_path, b"/home/u/doc.txt".to_vec());
}

#[test]
fn the_relative_path_keeps_its_directories() {
    let text = encode_at(b"/home/u/.local/share/notes/a b.txt", HOME_TRASH, true, DATE);
    assert_eq!(
        text,
        b"[Trash Info]\nPath=notes%2Fa%20b.txt\nDeletionDate=2024-05-06T07:08:09\n".to_vec()
    );
    assert_eq!(
        decode(&text, HOME_TRASH).original_path,
        b"/home/u/.local/share/notes/a b.txt".to_vec()
    );
}

#[test]
fn paths_of_any_bytes_come_back() {
    let paths: Vec<Vec<u8>> = vec![
        b"/mnt/data/with space.txt".to_vec(),
        b"/mnt/data/100%.txt".to_vec(),
        b"/mnt/data/%41%zz".to_vec(),
        "/mnt/data/\u{e9}t\u{e9}/\u{65e5}\u{672c}.txt".as_bytes().to_vec(),
        b"/mnt/data/line\nfeed\r".to_vec(),
        b"/mnt/data/Path=x".to_vec(),
        vec![b'/', 0xff, 0xfe, b'/', 0x01],
        b"/home/u/.local/share/x/y".to_vec(),
    ];
    for path in paths {
        for home in [false, true] {
            let text = encode_at(&path, HOME_TRASH, home, DATE);
            let record = decode(&text, HOME_TRASH);
            assert_eq!(record.original_path, path);
            assert_eq!(record.deletion_date, DATE.to_vec());
        }
    }
}

#[test]
fn encode_stamps_the_text_with_the_time() {
    let text = encode(b"/mnt/data/report.txt", b"/mnt/data/.Trash-1000", false);
    let head = b"[Trash Info]\nPath=%2Fmnt%2Fdata%2Freport.txt\nDeletionDate=";
    assert!(text.starts_with(head));
    assert_eq!(text.last(), Some(&b'\n'));
    let date = &text[head.len()..text.len() - 1];
    assert!(is_date(date));
    let record = decode(&text, b"/mnt/data/.Trash-1000");
    assert_eq!(record.original_path, b"/mnt/data/report.txt".to_vec());
    assert_eq!(record.deletion_date, date.to_vec());
}

#[test]
fn decode_passes_over_lines_it_does_not_know() {
    let text = b"# comment\n[Trash Info]\nX-Extra=1\nDeletionDate=2020-01-02T03:04:05\n\nPath=%2Fa%2Fb\nmore\n";
    assert_eq!(
        decode(text, HOME_TRASH),
        TrashInfoRecord {
            original_path: b"/a/b".to_vec(),
            deletion_date: b"2020-01-02T03:04:05".to_vec(),
        }
    );
}

#[test]
fn decode_leaves_missing_fields_empty() {
    assert_eq!(
        decode(b"[Trash Info]\n", HOME_TRASH),
        TrashInfoRecord { original_path: Vec::new(), deletion_date: Vec::new() }
    );
    assert_eq!(
        decode(b"", HOME_TRASH),
        TrashInfoRecord { original_path: Vec::new(), deletion_date: Vec::new() }
    );
    assert_eq!(
        decode(b"[Trash Info]\nPath=%2Fa\n", HOME_TRASH),
        TrashInfoRecord { original_path: b"/a".to_vec(), deletion_date: Vec::new() }
    );
    assert_eq!(
        decode(b"DeletionDate=now", HOME_TRASH),
        TrashInfoRecord { original_path: Vec::new(), deletion_date: b"now".to_vec() }
    );
}

#[test]
fn decode_takes_the_last_of_several_lines() {
    let text = b"Path=%2Ffirst\nPath=%2Fsecond\nDeletionDate=1\nDeletionDate=2\n";
    assert_eq!(
        decode(text, HOME_TRASH),
        TrashInfoRecord { original_path: b"/second".to_vec(), deletion_date: b"2".to_vec() }
    );
}

#[test]
fn decode_resolves_a_relative_path_below_the_parent_of_the_trash() {
    assert_eq!(
        decode(b"Path=notes/a%20b.txt\n", HOME_TRASH).original_path,
        b"/home/u/.local/share/notes/a b.txt".to_vec()
    );
    assert_eq!(decode(b"Path=x\n", b"/Trash").original_path, b"/x".to_vec());
    assert_eq!(decode(b"Path=x\n", b"/").original_path, b"/x".to_vec());
}

#[test]
fn decode_reads_windows_line_ends() {
    assert_eq!(
        decode(b"[Trash Info]\r\nPath=%2Fa\r\nDeletionDate=2020-01-02T03:04:05\r\n", HOME_TRASH),
        TrashInfoRecord {
            original_path: b"/a".to_vec(),
            deletion_date: b"2020-01-02T03:04:05".to_vec(),
        }
    );
}

#[test]
fn decode_asks_for_the_key_at_the_start_of_the_line() {
    assert_eq!(decode(b" Path=%2Fa\npath=%2Fb\n", HOME_TRASH).original_path, Vec::<u8>::new());
}

#[test]
fn decode_keeps_a_value_that_repeats_the_key() {
    assert_eq!(
        decode(b"Path=Path=x\nDeletionDate=DeletionDate=y\n", b"/t/Trash"),
        TrashInfoRecord {
            original_path: b"/t/Path=x".to_vec(),
            deletion_date: b"DeletionDate=y".to_vec(),
        }
    );
}

#[test]
fn the_file_is_written_beside_its_place_and_renamed() {
    let write = create_atomic_trashinfo(
        b"/home/u/.local/share/Trash/info/doc.txt.trashinfo",
        b"/home/u/.local/share/doc.txt",
        HOME_TRASH,
        HOME_TRASH,
    );
    assert_eq!(write.info_path, b"/home/u/.local/share/Trash/info/doc.txt.trashinfo".to_vec());
    assert_eq!(write.temp_path, b"/home/u/.local/share/Trash/info/doc.txt.trashinfo.tmp".to_vec());
    assert!(write.content.starts_with(b"[Trash Info]\nPath=doc.txt\nDeletionDate="));
}

#[test]
fn only_the_home_trash_gets_relative_paths() {
    let write = create_atomic_trashinfo(
        b"/mnt/data/.Trash-1000/info/report.txt.trashinfo",
        b"/mnt/data/report.txt",
        b"/mnt/data/.Trash-1000",
        HOME_TRASH,
    );
    assert!(write.content.starts_with(b"[Trash Info]\nPath=%2Fmnt%2Fdata%2Freport.txt\nDeletionDate="));
}
