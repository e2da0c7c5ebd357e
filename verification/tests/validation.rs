use fstree::FsError;
use fstree::is_valid_name;
use fstree::is_valid_path;

#[test]
fn name_rejects_spaces_and_dashes_mix() {
    assert_eq!(is_valid_name(" - - - -"), false);
}

#[test]
fn name_rejects_percent_signs() {
    assert_eq!(is_valid_name("%%ripbozo"), false);
}

#[test]
fn name_rejects_trailing_symbols() {
    assert_eq!(is_valid_name("aaa$%#"), false);
}

#[test]
fn name_accepts_letters() {
    assert_eq!(is_valid_name("aaa"), true);
}

#[test]
fn name_accepts_digits() {
    assert_eq!(is_valid_name("111"), true);
}

#[test]
fn name_rejects_empty() {
    assert_eq!(is_valid_name(""), false);
}

#[test]
fn name_rejects_43_characters() {
    let long = "a".repeat(43);
    assert_eq!(is_valid_name(&long), false);
}

#[test]
fn name_accepts_42_characters() {
    let long = "a".repeat(42);
    assert_eq!(is_valid_name(&long), true);
}

#[test]
fn name_accepts_separators_and_dots() {
    assert_eq!(is_valid_name("a/b-c.d"), true);
}

#[test]
fn path_rejects_leading_separator() {
    assert_eq!(is_valid_path("/h"), Err(FsError::InvalidPath));
}

#[test]
fn path_rejects_doubled_separator() {
    assert_eq!(is_valid_path("h//"), Err(FsError::InvalidPath));
}

#[test]
fn path_rejects_trailing_dot() {
    assert_eq!(is_valid_path("h/f."), Err(FsError::InvalidPath));
}

#[test]
fn path_accepts_single_segment() {
    assert_eq!(is_valid_path("h"), Ok(()));
}

#[test]
fn path_accepts_dotted_file_name() {
    assert_eq!(is_valid_path("h/f.a"), Ok(()));
}

#[test]
fn path_rejects_trailing_separator() {
    assert_eq!(is_valid_path("h/"), Err(FsError::InvalidPath));
}

#[test]
fn path_rejects_leading_dot() {
    assert_eq!(is_valid_path(".h"), Err(FsError::InvalidPath));
}

#[test]
fn path_rejects_doubled_dot() {
    assert_eq!(is_valid_path("h..a"), Err(FsError::InvalidPath));
}

#[test]
fn path_rejects_dot_before_separator() {
    assert_eq!(is_valid_path("h./x"), Err(FsError::InvalidPath));
}

#[test]
fn path_rejects_dot_after_separator() {
    assert_eq!(is_valid_path("h/.x"), Err(FsError::InvalidPath));
}

#[test]
fn path_accepts_empty_string() {
    assert_eq!(is_valid_path(""), Ok(()));
}

#[test]
fn path_accepts_256_bytes() {
    let long = "a".repeat(256);
    assert_eq!(is_valid_path(&long), Ok(()));
}

#[test]
fn path_rejects_257_bytes() {
    let long = "a".repeat(257);
    assert_eq!(is_valid_path(&long), Err(FsError::InvalidPath));
}

#[test]
fn path_rejects_non_ascii() {
    assert_eq!(is_valid_path("caf\u{e9}"), Err(FsError::InvalidPath));
}
