use can::naming::{candidate_name, find_unique_name, info_file};

fn names(items: &[&str]) -> Vec<Vec<u8>> {
    items.iter().map(|item| item.as_bytes().to_vec()).collect()
}

#[test]
fn the_counter_goes_before_the_extension() {
    assert_eq!(candidate_name(b"report.txt", 0), b"report.txt".to_vec());
    assert_eq!(candidate_name(b"report.txt", 1), b"report(1).txt".to_vec());
    assert_eq!(candidate_name(b"report.txt", 12), b"report(12).txt".to_vec());
    assert_eq!(candidate_name(b"a.tar.gz", 2), b"a.tar(2).gz".to_vec());
}

#[test]
fn without_an_extension_the_counter_goes_to_the_end() {
    assert_eq!(candidate_name(b"proj", 1), b"proj(1)".to_vec());
    assert_eq!(candidate_name(b"", 3), b"(3)".to_vec());
}

#[test]
fn a_leading_dot_opens_an_extension_too() {
    assert_eq!(candidate_name(b".bashrc", 1), b"(1).bashrc".to_vec());
    assert_eq!(candidate_name(b"name.", 1), b"name(1).".to_vec());
}

#[test]
fn the_counter_can_be_large() {
    assert_eq!(
        candidate_name(b"x.y", u64::MAX as u128),
        b"x(18446744073709551615).y".to_vec()
    );
}

#[test]
fn the_info_file_is_named_after_the_item() {
    assert_eq!(info_file(b"report.txt"), b"report.txt.trashinfo".to_vec());
}

#[test]
fn a_free_name_is_kept() {
    assert_eq!(find_unique_name(&Vec::new(), &Vec::new(), b"report.txt"), b"report.txt".to_vec());
    assert_eq!(
        find_unique_name(&names(&["other.txt"]), &names(&["other.txt.trashinfo"]), b"report.txt"),
        b"report.txt".to_vec()
    );
}

#[test]
fn a_taken_name_gets_the_first_free_counter() {
    let files = names(&["report.txt", "report(1).txt", "report(3).txt"]);
    let info = names(&["report.txt.trashinfo", "report(1).txt.trashinfo", "report(3).txt.trashinfo"]);
    assert_eq!(find_unique_name(&files, &info, b"report.txt"), b"report(2).txt".to_vec());
}

#[test]
fn a_name_is_taken_by_an_info_file_alone() {
    assert_eq!(
        find_unique_name(&Vec::new(), &names(&["report.txt.trashinfo"]), b"report.txt"),
        b"report(1).txt".to_vec()
    );
    assert_eq!(
        find_unique_name(
            &names(&["report.txt"]),
            &names(&["report(1).txt.trashinfo"]),
            b"report.txt"
        ),
        b"report(2).txt".to_vec()
    );
}

#[test]
fn an_info_file_of_another_name_takes_nothing() {
    assert_eq!(
        find_unique_name(&Vec::new(), &names(&["report.txt"]), b"report.txt"),
        b"report.txt".to_vec()
    );
}

#[test]
fn items_of_one_name_get_the_counters_in_turn() {
    let mut files: Vec<Vec<u8>> = Vec::new();
    let mut info: Vec<Vec<u8>> = Vec::new();
    let mut given: Vec<Vec<u8>> = Vec::new();
    for _ in 0..12 {
        let name = find_unique_name(&files, &info, b"base.ext");
        assert!(!files.contains(&name));
        assert!(!info.contains(&info_file(&name)));
        files.push(name.clone());
        info.push(info_file(&name));
        given.push(name);
    }
    assert_eq!(given[0], b"base.ext".to_vec());
    assert_eq!(given[1], b"base(1).ext".to_vec());
    assert_eq!(given[9], b"base(9).ext".to_vec());
    assert_eq!(given[11], b"base(11).ext".to_vec());
    for (count, name) in given.iter().enumerate() {
        assert_eq!(*name, candidate_name(b"base.ext", count as u128));
        assert_eq!(given.iter().filter(|other| *other == name).count(), 1);
    }
}

#[test]
fn names_differ_in_a_directory_that_held_some_before() {
    let mut files = names(&["a(1)", "a(4)"]);
    let mut info = names(&["a(2).trashinfo"]);
    let mut given: Vec<Vec<u8>> = Vec::new();
    for _ in 0..4 {
        let name = find_unique_name(&files, &info, b"a");
        files.push(name.clone());
        info.push(info_file(&name));
        given.push(name);
    }
    assert_eq!(given, names(&["a", "a(3)", "a(5)", "a(6)"]));
}
