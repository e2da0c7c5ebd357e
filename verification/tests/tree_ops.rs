use fstree::FsError;
use fstree::FsNode;
use fstree::create_dir;
use fstree::create_file;
use fstree::create_fs;

fn root_entries(t: &FsNode) -> &Vec<FsNode> {
    match t {
        FsNode::Root { entries } => entries,
        _ => panic!("not a root"),
    }
}

fn dir_entries<'a>(n: &'a FsNode, expected: &str) -> &'a Vec<FsNode> {
    match n {
        FsNode::Dir { name, entries } => {
            assert_eq!(name.as_str(), expected);
            entries
        }
        _ => panic!("not a directory"),
    }
}

fn file_name(n: &FsNode) -> &str {
    match n {
        FsNode::File { name, .. } => name.as_str(),
        _ => panic!("not a file"),
    }
}

#[test]
fn fresh_tree_is_empty_root() {
    let t = create_fs();
    assert_eq!(root_entries(&t).len(), 0);
}

#[test]
fn sibling_directories_in_creation_order() {
    let mut t = create_fs();
    create_dir(&mut t, "a/b").unwrap();
    create_dir(&mut t, "a/c").unwrap();
    let top = root_entries(&t);
    assert_eq!(top.len(), 1);
    let inside = dir_entries(&top[0], "a");
    assert_eq!(inside.len(), 2);
    dir_entries(&inside[0], "b");
    dir_entries(&inside[1], "c");
}

#[test]
fn repeated_directory_creation_is_idempotent() {
    let mut t = create_fs();
    create_dir(&mut t, "x/y").unwrap();
    create_dir(&mut t, "x/y").unwrap();
    let top = root_entries(&t);
    assert_eq!(top.len(), 1);
    let inside = dir_entries(&top[0], "x");
    assert_eq!(inside.len(), 1);
    dir_entries(&inside[0], "y");
}

#[test]
fn deep_directory_chain_is_created() {
    let mut t = create_fs();
    create_dir(&mut t, "folder-2/hellow/collection").unwrap();
    let top = root_entries(&t);
    assert_eq!(top.len(), 1);
    let l1 = dir_entries(&top[0], "folder-2");
    assert_eq!(l1.len(), 1);
    let l2 = dir_entries(&l1[0], "hellow");
    assert_eq!(l2.len(), 1);
    let l3 = dir_entries(&l2[0], "collection");
    assert_eq!(l3.len(), 0);
}

#[test]
fn file_lands_in_existing_directory() {
    let mut t = create_fs();
    create_dir(&mut t, "docs").unwrap();
    create_file(&mut t, "docs/readme.md", b"hello").unwrap();
    let top = root_entries(&t);
    let inside = dir_entries(&top[0], "docs");
    assert_eq!(inside.len(), 1);
    assert_eq!(file_name(&inside[0]), "readme.md");
    match &inside[0] {
        FsNode::File { contents, .. } => assert_eq!(contents.as_slice(), b"hello"),
        _ => panic!("not a file"),
    }
}

#[test]
fn file_creation_needs_existing_directory() {
    let mut t = create_fs();
    let r = create_file(&mut t, "missing/file.txt", b"data");
    assert_eq!(r, Err(FsError::MissingDirectory(String::from("missing"))));
    assert_eq!(root_entries(&t).len(), 0);
}

#[test]
fn directory_under_file_name_is_refused() {
    let mut t = create_fs();
    create_file(&mut t, "f.txt", b"x").unwrap();
    let r = create_dir(&mut t, "f.txt/sub");
    assert_eq!(r, Err(FsError::TargetIsFile));
    let top = root_entries(&t);
    assert_eq!(top.len(), 1);
    assert_eq!(file_name(&top[0]), "f.txt");
}

#[test]
fn file_under_file_name_is_refused() {
    let mut t = create_fs();
    create_file(&mut t, "f.txt", b"x").unwrap();
    let r = create_file(&mut t, "f.txt/g.txt", b"y");
    assert_eq!(r, Err(FsError::TargetIsFile));
    assert_eq!(root_entries(&t).len(), 1);
}

#[test]
fn directory_with_file_name_coexists() {
    let mut t = create_fs();
    create_file(&mut t, "f.txt", b"x").unwrap();
    create_dir(&mut t, "f.txt").unwrap();
    let top = root_entries(&t);
    assert_eq!(top.len(), 2);
    assert_eq!(file_name(&top[0]), "f.txt");
    dir_entries(&top[1], "f.txt");
}

#[test]
fn invalid_name_is_reported_before_mutation() {
    let mut t = create_fs();
    let r = create_dir(&mut t, "bad name");
    assert_eq!(r, Err(FsError::InvalidName));
    let r2 = create_file(&mut t, "bad name", b"x");
    assert_eq!(r2, Err(FsError::InvalidName));
    assert_eq!(root_entries(&t).len(), 0);
}

#[test]
fn invalid_path_is_reported_before_mutation() {
    let mut t = create_fs();
    let r = create_dir(&mut t, "a//b");
    assert_eq!(r, Err(FsError::InvalidPath));
    let r2 = create_file(&mut t, "/a", b"x");
    assert_eq!(r2, Err(FsError::InvalidPath));
    assert_eq!(root_entries(&t).len(), 0);
}

#[test]
fn empty_path_is_an_invalid_name() {
    let mut t = create_fs();
    assert_eq!(create_dir(&mut t, ""), Err(FsError::InvalidName));
}

#[test]
fn file_with_directory_name_coexists() {
    let mut t = create_fs();
    create_dir(&mut t, "x").unwrap();
    create_file(&mut t, "x", b"data").unwrap();
    let top = root_entries(&t);
    assert_eq!(top.len(), 2);
    dir_entries(&top[0], "x");
    assert_eq!(file_name(&top[1]), "x");
}

#[test]
fn duplicate_files_are_appended() {
    let mut t = create_fs();
    create_file(&mut t, "a.txt", b"one").unwrap();
    create_file(&mut t, "a.txt", b"two").unwrap();
    let top = root_entries(&t);
    assert_eq!(top.len(), 2);
    assert_eq!(file_name(&top[0]), "a.txt");
    assert_eq!(file_name(&top[1]), "a.txt");
}

#[test]
fn mixed_children_keep_insertion_order() {
    let mut t = create_fs();
    create_dir(&mut t, "a").unwrap();
    create_file(&mut t, "b.txt", b"").unwrap();
    create_dir(&mut t, "c").unwrap();
    let top = root_entries(&t);
    assert_eq!(top.len(), 3);
    dir_entries(&top[0], "a");
    assert_eq!(file_name(&top[1]), "b.txt");
    dir_entries(&top[2], "c");
}
