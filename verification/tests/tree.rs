use can::dirsizes::update_directorysizes_cache;
use can::tree::{calculate_directory_size, Tree, TreeEntry};

fn file(name: &str, length: u64) -> TreeEntry {
    TreeEntry { name: name.as_bytes().to_vec(), tree: Tree::File { length } }
}

fn directory(name: &str, entries: Vec<TreeEntry>) -> TreeEntry {
    TreeEntry { name: name.as_bytes().to_vec(), tree: Tree::Directory(entries) }
}

#[test]
fn the_size_of_a_file_is_its_length() {
    assert_eq!(calculate_directory_size(&Tree::File { length: 4096 }), Some(4096));
    assert_eq!(calculate_directory_size(&Tree::File { length: 0 }), Some(0));
}

#[test]
fn an_empty_directory_has_no_size() {
    assert_eq!(calculate_directory_size(&Tree::Directory(Vec::new())), Some(0));
}

#[test]
fn the_size_of_a_directory_is_the_sum_of_the_files_below_it() {
    let tree = Tree::Directory(vec![
        file("a", 1000),
        directory("sub", vec![file("b", 3000), directory("deep", vec![file("c", 90)])]),
        directory("empty", Vec::new()),
        file("d", 6),
    ]);
    assert_eq!(calculate_directory_size(&tree), Some(4096));
}

#[test]
fn a_directory_of_4096_bytes_gets_its_line() {
    let tree = Tree::Directory(vec![file("a", 4000), directory("s", vec![file("b", 96)])]);
    let size = calculate_directory_size(&tree).unwrap();
    let present = vec![b"proj".to_vec()];
    assert_eq!(
        update_directorysizes_cache(b"", b"proj", size, 1700000000, &present),
        b"4096 1700000000 proj\n".to_vec()
    );
}

#[test]
fn a_size_can_fill_the_type() {
    let tree = Tree::Directory(vec![file("a", u64::MAX - 1), file("b", 1)]);
    assert_eq!(calculate_directory_size(&tree), Some(u64::MAX));
}

#[test]
fn a_size_beyond_the_type_is_none() {
    let tree = Tree::Directory(vec![file("a", u64::MAX), file("b", 1)]);
    assert_eq!(calculate_directory_size(&tree), None);
    let deep = Tree::Directory(vec![
        directory("x", vec![file("a", u64::MAX), file("b", 1)]),
        file("c", 0),
    ]);
    assert_eq!(calculate_directory_size(&deep), None);
    let late = Tree::Directory(vec![
        file("a", 1),
        directory("x", vec![file("b", u64::MAX)]),
        file("c", 0),
    ]);
    assert_eq!(calculate_directory_size(&late), None);
}
