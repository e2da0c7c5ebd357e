use fstree::create_dir;
use fstree::create_file;
use fstree::create_fs;
use fstree::render;

#[test]
fn empty_tree_renders_to_nothing() {
    let t = create_fs();
    assert_eq!(render(&t, ""), "");
}

#[test]
fn round_trip_listing_in_insertion_order() {
    let mut t = create_fs();
    create_dir(&mut t, "a/b").unwrap();
    create_file(&mut t, "a/f.txt", b"data").unwrap();
    create_file(&mut t, "g.txt", b"more").unwrap();
    assert_eq!(render(&t, ""), "a/\n| b/\n| f.txt\ng.txt\n");
}

#[test]
fn nesting_doubles_the_indent() {
    let mut t = create_fs();
    create_dir(&mut t, "a/b/c").unwrap();
    assert_eq!(render(&t, ""), "a/\n| b/\n| | c/\n");
}

#[test]
fn custom_indent_prefixes_every_line() {
    let mut t = create_fs();
    create_dir(&mut t, "a").unwrap();
    create_file(&mut t, "b.txt", b"").unwrap();
    assert_eq!(render(&t, "> "), "> a/\n> b.txt\n");
}

#[test]
fn demo_driver_tree_renders_depth_first() {
    let mut t = create_fs();
    create_dir(&mut t, "folder-1").unwrap();
    create_dir(&mut t, "folder-1/test").unwrap();
    create_dir(&mut t, "folder-2/hello").unwrap();
    create_dir(&mut t, "folder-2/hellow/collection").unwrap();
    create_file(&mut t, "folder-2/readme.md", b"this is so cool").unwrap();
    create_file(&mut t, "folder-2/hellow/collection/virus.exe", b"this is cool").unwrap();
    create_file(&mut t, "main-readme.md", b"hello").unwrap();
    create_file(&mut t, "main-readme2.md", b"this is so cool").unwrap();
    let expected = "folder-1/\n| test/\nfolder-2/\n| hello/\n| hellow/\n| | collection/\n| | | virus.exe\n| readme.md\nmain-readme.md\nmain-readme2.md\n";
    assert_eq!(render(&t, ""), expected);
}
