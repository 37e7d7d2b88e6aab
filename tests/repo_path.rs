use cargo2soong::repo_path::RepoPath;
use std::path::{Path, PathBuf};

#[test]
fn test_basic() {
    let p = RepoPath::new(&"/foo", &"bar");
    assert_eq!(Path::new(p.root()), Path::new("/foo"));
    assert_eq!(Path::new(p.rel()), Path::new("bar"));
    assert_eq!(PathBuf::from(p.abs()), PathBuf::from("/foo/bar"));
    assert_eq!(p.join(&"baz"), RepoPath::new("/foo", "bar/baz"));
    assert_eq!(p.with_same_root(&"baz"), RepoPath::new("/foo", "baz"));
}

#[test]
fn repo_path_join_keeps_separator() {
    let p = RepoPath::new("/", "a/");
    assert_eq!(p.abs(), "/a/");
    assert_eq!(p.join("b").rel(), "a/b");
    assert_eq!(p.to_string(), "a/");
}
