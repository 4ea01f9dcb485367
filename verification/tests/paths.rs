use cargo_fusion::paths::{
    dedup_by_path, display_path, extension, file_name, join, path_less, paths_equal, paths_same_dir, sort_by_path,
    starts_with_path,
};

#[test]
fn display_path_drops_verbatim_prefix() {
    assert_eq!(display_path("\\\\?\\C:\\work\\main.rs"), "C:\\work\\main.rs");
    assert_eq!(display_path("/home/user/main.rs"), "/home/user/main.rs");
    assert_eq!(display_path("\\\\?"), "\\\\?");
    assert_eq!(display_path(""), "");
}

#[test]
fn join_like_path_join() {
    assert_eq!(join("/a", "b"), "/a/b");
    assert_eq!(join("/a/", "b"), "/a/b");
    assert_eq!(join("/a", "/b"), "/b");
    assert_eq!(join("", "b"), "b");
    assert_eq!(join("dir", "Cargo.toml"), "dir/Cargo.toml");
}

#[test]
fn paths_compare_by_components() {
    assert!(path_less("a/b", "a/c"));
    assert!(!path_less("a/c", "a/b"));
    // Component order, not text order: `a` < `a-b`, so `a/b` comes first.
    assert!(path_less("a/b", "a-b"));
    assert!(path_less("a", "a/b"));
    assert!(!path_less("a/b", "a/b"));
    assert!(paths_equal("a//b", "a/b"));
    assert!(paths_equal("a/b/", "a/b"));
    assert!(!paths_equal("/a", "a"));
    assert!(path_less("/a", "a") || path_less("a", "/a"));
}

#[test]
fn starts_with_whole_components() {
    assert!(starts_with_path("/a/b/c", "/a/b"));
    assert!(starts_with_path("/a/b", "/a/b"));
    assert!(!starts_with_path("/a/bc", "/a/b"));
    assert!(!starts_with_path("/a", "/a/b"));
}

#[test]
fn sort_orders_by_path() {
    let v = vec![
        (String::from("b"), 1),
        (String::from("a-b"), 3),
        (String::from("a/b"), 2),
    ];
    let sorted = sort_by_path(v);
    let names: Vec<&str> = sorted.iter().map(|(p, _)| p.as_str()).collect();
    assert_eq!(names, vec!["a/b", "a-b", "b"]);
    let values: Vec<i32> = sorted.iter().map(|(_, n)| *n).collect();
    assert_eq!(values, vec![2, 3, 1]);
    let empty: Vec<(String, u8)> = Vec::new();
    assert!(sort_by_path(empty).is_empty());
}

#[test]
fn dedup_drops_repeated_neighbours() {
    let v = vec![String::from("a"), String::from("a/"), String::from("b"), String::from("a")];
    assert_eq!(dedup_by_path(v), vec![String::from("a"), String::from("b"), String::from("a")]);
    assert!(dedup_by_path(Vec::new()).is_empty());
}

#[test]
fn file_names_and_extensions() {
    assert_eq!(file_name("/a/b.rs"), Some(vec!['b', '.', 'r', 's']));
    assert_eq!(file_name("/"), None);
    assert_eq!(file_name("a/.."), None);
    assert_eq!(extension("/a/b.rs"), Some(vec!['r', 's']));
    assert_eq!(extension("/a/b.tar.gz"), Some(vec!['g', 'z']));
    assert_eq!(extension("/a/.bashrc"), None);
    assert_eq!(extension("/a/Makefile"), None);
    assert_eq!(extension("/a/b."), Some(vec![]));
}

#[test]
fn same_dir_resolves_parent_components() {
    assert!(paths_same_dir("/w/a/../b", "/w/b"));
    assert!(paths_same_dir("/w/a/../b/../a", "/w/a/"));
    assert!(paths_same_dir("/..", "/"));
    assert!(!paths_same_dir("/w/a/../b", "/w/a"));
    assert!(!paths_same_dir("../a", "a"));
    assert!(!paths_equal("/w/a/../b", "/w/b"));
}
