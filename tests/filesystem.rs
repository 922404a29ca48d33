use kernel::filesystem::{init, FsError, ROOT};

#[test]
fn create_list_and_resolve() {
    let mut fs = init();
    let docs = fs.create_dir("/docs", ROOT).unwrap();
    let b = fs.create_file("docs/b.txt", ROOT).unwrap();
    let a = fs.create_file("/docs/a.txt", ROOT).unwrap();
    let sub = fs.create_dir("docs/zeta", ROOT).unwrap();
    assert_eq!((docs, b, a, sub), (1, 2, 3, 4));
    let entries = fs.list_dir(docs).unwrap();
    let names: Vec<(&str, bool)> = entries.iter().map(|(n, d)| (n.as_str(), *d)).collect();
    assert_eq!(names, vec![("a.txt", false), ("b.txt", false), ("zeta", true)]);
    assert_eq!(fs.resolve_path("  /docs/./zeta/..//a.txt  ", ROOT), Ok(a));
    assert_eq!(fs.resolve_path("", sub), Ok(sub));
    assert_eq!(fs.resolve_path("..", sub), Ok(docs));
    assert_eq!(fs.resolve_path("/..", sub), Ok(ROOT));
    assert_eq!(fs.resolve_path("/", sub), Ok(ROOT));
    assert_eq!(fs.resolve_path("../b.txt", sub), Ok(b));
    assert!(fs.is_directory(sub));
    assert!(!fs.is_directory(a));
    assert!(!fs.is_directory(99));
}

#[test]
fn resolve_errors() {
    let mut fs = init();
    fs.create_file("f", ROOT).unwrap();
    assert_eq!(fs.resolve_path("missing", ROOT), Err(FsError::NotFound));
    assert_eq!(fs.resolve_path("f/x", ROOT), Err(FsError::NotADirectory));
    assert_eq!(fs.resolve_path("x", 42), Err(FsError::NotFound));
}

#[test]
fn resolve_parent_cases() {
    let mut fs = init();
    let d = fs.create_dir("d", ROOT).unwrap();
    assert_eq!(fs.resolve_parent("", ROOT), Err(FsError::InvalidPath));
    assert_eq!(fs.resolve_parent("   ", ROOT), Err(FsError::InvalidPath));
    assert_eq!(fs.resolve_parent("/", ROOT), Err(FsError::InvalidPath));
    assert_eq!(fs.resolve_parent("//", ROOT), Err(FsError::InvalidPath));
    assert_eq!(fs.resolve_parent("name", d), Ok((d, String::from("name"))));
    assert_eq!(fs.resolve_parent("/top/", d), Ok((ROOT, String::from("top"))));
    assert_eq!(fs.resolve_parent("/d/new", ROOT), Ok((d, String::from("new"))));
    assert_eq!(fs.resolve_parent("nope/new", ROOT), Err(FsError::NotFound));
}

#[test]
fn create_errors() {
    let mut fs = init();
    fs.create_file("f", ROOT).unwrap();
    assert_eq!(fs.create_file("f", ROOT), Err(FsError::AlreadyExists));
    assert_eq!(fs.create_dir("f", ROOT), Err(FsError::AlreadyExists));
    assert_eq!(fs.create_file("f/g", ROOT), Err(FsError::NotADirectory));
    assert_eq!(fs.create_file("/", ROOT), Err(FsError::InvalidPath));
}

#[test]
fn read_write_and_overwrite() {
    let mut fs = init();
    assert_eq!(fs.write_file("note", b"hello", ROOT), Ok(()));
    let id = fs.resolve_path("note", ROOT).unwrap();
    assert_eq!(fs.read_file(id), Ok(&b"hello"[..]));
    assert_eq!(fs.write_file("note", b"bye", ROOT), Ok(()));
    assert_eq!(fs.read_file(id), Ok(&b"bye"[..]));
    assert_eq!(fs.read_file(ROOT), Err(FsError::NotAFile));
    assert_eq!(fs.read_file(77), Err(FsError::NotFound));
    assert_eq!(fs.write_file("/", b"x", ROOT), Err(FsError::NotAFile));
    assert_eq!(fs.write_file("none/x", b"x", ROOT), Err(FsError::NotFound));
    assert_eq!(fs.list_dir(id), Err(FsError::NotADirectory));
    assert_eq!(fs.list_dir(77), Err(FsError::NotFound));
}

#[test]
fn remove_cases() {
    let mut fs = init();
    let d = fs.create_dir("d", ROOT).unwrap();
    fs.create_file("d/f", ROOT).unwrap();
    assert_eq!(fs.remove("d", ROOT), Err(FsError::DirectoryNotEmpty));
    assert_eq!(fs.remove("d/missing", ROOT), Err(FsError::NotFound));
    assert_eq!(fs.remove("d/f/x", ROOT), Err(FsError::NotADirectory));
    assert_eq!(fs.remove("d/f", ROOT), Ok(()));
    assert!(fs.list_dir(d).unwrap().is_empty());
    assert_eq!(fs.remove("d", ROOT), Ok(()));
    assert_eq!(fs.resolve_path("d", ROOT), Err(FsError::NotFound));
    assert!(fs.list_dir(ROOT).unwrap().is_empty());
}

#[test]
fn paths_of_inodes() {
    let mut fs = init();
    assert_eq!(fs.get_path(ROOT).unwrap(), "/");
    let a = fs.create_dir("a", ROOT).unwrap();
    let b = fs.create_dir("a/b", ROOT).unwrap();
    let c = fs.create_file("a/b/c.txt", ROOT).unwrap();
    assert_eq!(fs.get_path(a).unwrap(), "/a");
    assert_eq!(fs.get_path(b).unwrap(), "/a/b");
    assert_eq!(fs.get_path(c).unwrap(), "/a/b/c.txt");
    assert_eq!(fs.get_path(1234), Err(FsError::NotFound));
}

#[test]
fn error_messages() {
    assert_eq!(FsError::NotFound.as_str(), "not found");
    assert_eq!(FsError::DirectoryNotEmpty.as_str(), "directory not empty");
    assert_eq!(FsError::InvalidPath.as_str(), "invalid path");
}

#[test]
fn listing_is_in_name_order_and_removed_names_are_gone() {
    let mut fs = init();
    for name in ["m", "b", "z", "a", "ba", "B"] {
        fs.create_file(name, ROOT).unwrap();
    }
    let names: Vec<String> = fs.list_dir(ROOT).unwrap().into_iter().map(|(n, _)| n).collect();
    assert_eq!(names, vec!["B", "a", "b", "ba", "m", "z"]);
    assert_eq!(fs.remove("ba", ROOT), Ok(()));
    let names: Vec<String> = fs.list_dir(ROOT).unwrap().into_iter().map(|(n, _)| n).collect();
    assert_eq!(names, vec!["B", "a", "b", "m", "z"]);
    assert_eq!(fs.resolve_path("ba", ROOT), Err(FsError::NotFound));
}
