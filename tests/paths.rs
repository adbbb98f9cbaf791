use nix_darwin_bundle::paths::{join_path, parent_dir, starts_with_dir, strip_dir};

#[test]
fn dir_prefix_goes_by_whole_segments() {
    assert!(starts_with_dir("/nix/store/abc", "/nix/store"));
    assert!(starts_with_dir("/nix/store", "/nix/store"));
    assert!(!starts_with_dir("/nix/storex", "/nix/store"));
    assert!(!starts_with_dir("/nix", "/nix/store"));
    assert!(starts_with_dir("/a", "/"));
}

#[test]
fn strip_dir_drops_separators() {
    assert_eq!(strip_dir("/nix/store//abc/x", "/nix/store"), Some("abc/x".to_string()));
    assert_eq!(strip_dir("/nix/store", "/nix/store"), Some(String::new()));
    assert_eq!(strip_dir("/usr/lib", "/nix/store"), None);
}

#[test]
fn join_path_cases() {
    assert_eq!(join_path("/a", "b"), "/a/b");
    assert_eq!(join_path("/a/", "b"), "/a/b");
    assert_eq!(join_path("/a", "/b"), "/b");
    assert_eq!(join_path("", "b"), "b");
    assert_eq!(join_path("a", ""), "a/");
}

#[test]
fn parent_dir_cases() {
    assert_eq!(parent_dir("/a/b"), Some("/a".to_string()));
    assert_eq!(parent_dir("/a/b/"), Some("/a".to_string()));
    assert_eq!(parent_dir("/a//b"), Some("/a".to_string()));
    assert_eq!(parent_dir("/a"), Some("/".to_string()));
    assert_eq!(parent_dir("a"), Some(String::new()));
    assert_eq!(parent_dir("/"), None);
    assert_eq!(parent_dir(""), None);
}
