use league_director::paths::{
    extension_of, file_name_of, file_stem_of, has_extension, join_path, parent_of, pop_path,
    with_extension_of,
};

#[test]
fn path_parts() {
    assert_eq!(file_name_of("/a/b.txt"), Some("b.txt".to_string()));
    assert_eq!(file_name_of("/a/b/"), Some("b".to_string()));
    assert_eq!(file_name_of("/"), None);
    assert_eq!(file_name_of("/a/.."), None);
    assert_eq!(parent_of("/a/b"), Some("/a".to_string()));
    assert_eq!(parent_of("b"), Some("".to_string()));
    assert_eq!(parent_of("/"), None);
    assert_eq!(file_stem_of("/a/x.tar.gz"), Some("x.tar".to_string()));
    assert_eq!(file_stem_of("/a/.hidden"), Some(".hidden".to_string()));
    assert_eq!(extension_of("/a/x.tar.gz"), Some("gz".to_string()));
    assert_eq!(extension_of("/a/.hidden"), None);
    assert!(has_extension("/a/x.app", "app"));
    assert!(!has_extension("/a/x.APP", "app"));
}

#[test]
fn path_edits() {
    assert_eq!(join_path("/a", "b"), "/a/b");
    assert_eq!(join_path("/a/", "b"), "/a/b");
    assert_eq!(join_path("/a", "/b"), "/b");
    assert_eq!(join_path("", "b"), "b");
    assert_eq!(with_extension_of("/a/x.webm.tmp", ""), "/a/x.webm");
    assert_eq!(with_extension_of("/a/x", "json"), "/a/x.json");
    assert_eq!(pop_path("/a/b"), "/a");
    assert_eq!(pop_path("/"), "/");
}
