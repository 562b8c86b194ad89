use maid::path::{join_path, path_extension, path_file_name, path_parent, path_with_file_name, paths_equal};

#[test]
fn join_cases() {
    assert_eq!(join_path("a", "b"), "a/b");
    assert_eq!(join_path("a/", "b"), "a/b");
    assert_eq!(join_path("", "b"), "b");
    assert_eq!(join_path("a", "/b"), "/b");
    assert_eq!(join_path("a", ""), "a/");
}

#[test]
fn file_name_cases() {
    assert_eq!(path_file_name("/d/report.pdf"), Some("report.pdf"));
    assert_eq!(path_file_name("d/e/"), Some("e"));
    assert_eq!(path_file_name("d/e/."), Some("e"));
    assert_eq!(path_file_name("d//e"), Some("e"));
    assert_eq!(path_file_name("/"), None);
    assert_eq!(path_file_name("."), None);
    assert_eq!(path_file_name("./"), None);
    assert_eq!(path_file_name("d/.."), None);
    assert_eq!(path_file_name(""), None);
    assert_eq!(path_file_name(".bashrc"), Some(".bashrc"));
}

#[test]
fn parent_cases() {
    assert_eq!(path_parent("a/b"), Some("a"));
    assert_eq!(path_parent("/a"), Some("/"));
    assert_eq!(path_parent("a"), Some(""));
    assert_eq!(path_parent("/"), None);
    assert_eq!(path_parent(""), None);
    assert_eq!(path_parent("a//b/"), Some("a"));
    assert_eq!(path_parent("./a"), Some("."));
    assert_eq!(path_parent("."), Some(""));
    assert_eq!(path_parent(".."), Some(""));
}

#[test]
fn extension_cases() {
    assert_eq!(path_extension("a/b.tar.gz"), Some("gz"));
    assert_eq!(path_extension("a/.bashrc"), None);
    assert_eq!(path_extension("a/b"), None);
    assert_eq!(path_extension("a/b."), Some(""));
    assert_eq!(path_extension("a/.."), None);
}

#[test]
fn with_file_name_cases() {
    assert_eq!(path_with_file_name("/d/a.pdf", "a.md"), "/d/a.md");
    assert_eq!(path_with_file_name("a.pdf", "a.md"), "a.md");
    assert_eq!(path_with_file_name("/", "x"), "/x");
    assert_eq!(path_with_file_name("d/", "x"), "x");
}

#[test]
fn path_equality_by_components() {
    assert!(paths_equal("a/b", "a/b/"));
    assert!(paths_equal("a//b", "a/./b"));
    assert!(paths_equal("/a", "//a"));
    assert!(!paths_equal("/a", "a"));
    assert!(!paths_equal("./a", "a"));
    assert!(!paths_equal("a/b", "a/c"));
    assert!(!paths_equal("a/b", "a"));
    assert!(paths_equal("", ""));
}
