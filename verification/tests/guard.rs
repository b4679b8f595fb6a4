use ctfsink::db::Db;
use ctfsink::utils::path_is_valid;
use std::path::{Component, Path};

#[test]
fn accepts_single_plain_segments() {
    assert!(path_is_valid("foo.txt"));
    assert!(path_is_valid("20240615-12:30:45-GET-|foo.yaml"));
    assert!(path_is_valid("a"));
    assert!(path_is_valid("..."));
    assert!(path_is_valid(".hidden"));
}

#[test]
fn rejects_traversal() {
    assert!(!path_is_valid(".."));
    assert!(!path_is_valid("../etc/passwd"));
    assert!(!path_is_valid("a/../b"));
    assert!(!path_is_valid("foo/.."));
}

#[test]
fn rejects_absolute_paths() {
    assert!(!path_is_valid("/"));
    assert!(!path_is_valid("/etc/passwd"));
    assert!(!path_is_valid("/foo"));
}

#[test]
fn rejects_multiple_segments() {
    assert!(!path_is_valid("a/b"));
    assert!(!path_is_valid("a/b/c"));
    assert!(!path_is_valid("./a"));
}

#[test]
fn rejects_empty_and_dot() {
    assert!(!path_is_valid(""));
    assert!(!path_is_valid("."));
    assert!(!path_is_valid("./"));
}

#[test]
fn tolerates_redundant_separators() {
    assert!(path_is_valid("foo/"));
    assert!(path_is_valid("foo//"));
    assert!(path_is_valid("foo/."));
    assert!(path_is_valid("foo/./."));
    assert!(!path_is_valid("foo//bar"));
}

#[test]
fn db_guard_is_the_same_check() {
    for p in ["foo", "..", "a/b", "/x", "", "foo/."] {
        assert_eq!(Db::path_is_valid(p), path_is_valid(p));
    }
}

/// The guard agrees with the platform's own path decomposition: exactly
/// one component, and that component a normal name.
#[test]
fn agrees_with_platform_components() {
    let cases = [
        "foo.txt", "a", "..", "../x", "a/../b", "/", "/etc", "a/b", "./a", "", ".", "./", "foo/",
        "foo//", "foo/.", "foo/./.", "foo//bar", "...", ".hidden", "a b", "x|y", "a:b",
    ];
    for case in cases {
        let path = Path::new(case);
        let mut components = path.components().peekable();
        let first_normal = match components.peek() {
            Some(first) => matches!(first, Component::Normal(_)),
            None => false,
        };
        let expected = first_normal && components.count() == 1;
        assert_eq!(path_is_valid(case), expected, "case: {case:?}");
    }
}
