use nix_darwin_bundle::copy::walk_destination;
use nix_darwin_bundle::error::BundleError;
use nix_darwin_bundle::store::{dependency_path, diff_paths, in_store};

#[test]
fn store_membership_goes_by_segments() {
    assert!(in_store("/nix/store/abc123-libfoo"));
    assert!(in_store("/nix/store"));
    assert!(in_store("/nix//store/abc"));
    assert!(in_store("/nix/./store/abc"));
    assert!(in_store("//nix/store/abc"));
    assert!(!in_store("/usr/lib/libSystem.B.dylib"));
    assert!(!in_store("/nix/storex/a"));
    assert!(!in_store("nix/store/a"));
    assert!(!in_store("/nix/../nix/store/a"));
    assert!(!in_store(""));
}

#[test]
fn relocation_ignores_repeated_separators_and_dot_segments() {
    assert_eq!(dependency_path("/nix//store/abc", "root"), Ok("root/abc".to_string()));
    assert_eq!(dependency_path("/nix/./store/./abc/lib", "root"), Ok("root/abc/lib".to_string()));
    assert_eq!(dependency_path("/nix/store", "root"), Ok("root/".to_string()));
}

#[test]
fn relocates_store_path_under_root() {
    assert_eq!(
        dependency_path("/nix/store/abc123-libfoo/lib/libfoo.dylib", "/root"),
        Ok("/root/abc123-libfoo/lib/libfoo.dylib".to_string())
    );
    assert_eq!(
        dependency_path("/nix/store/abc123-libfoo/lib/libfoo.dylib", "@rpath"),
        Ok("@rpath/abc123-libfoo/lib/libfoo.dylib".to_string())
    );
}

#[test]
fn relocation_refuses_paths_outside_the_store() {
    assert_eq!(dependency_path("/usr/lib/libc.dylib", "/root"), Err(BundleError::NotInStore));
    assert_eq!(dependency_path("/nix/storefront/x", "/root"), Err(BundleError::NotInStore));
}

#[test]
fn relocation_is_repeatable() {
    let a = dependency_path("/nix/store/d-lib/lib/libd.dylib", "/b/Contents/nix");
    let b = dependency_path("/nix/store/d-lib/lib/libd.dylib", "/b/Contents/nix");
    assert_eq!(a, b);
}

#[test]
fn relocation_agrees_with_tree_walk() {
    let root = "/out/App.app/Contents/nix";
    let tree = "/nix/store/xyz-lib/lib";
    let entry = "/nix/store/xyz-lib/lib/pkgconfig/xyz.pc";
    let tree_dst = dependency_path(tree, root).unwrap();
    assert_eq!(
        walk_destination(entry, tree, &tree_dst),
        dependency_path(entry, root)
    );
}

#[test]
fn relative_paths_between_absolute_paths() {
    assert_eq!(diff_paths("/foo/bar/quux", "/foo/bar/baz"), Ok("../quux".to_string()));
    assert_eq!(diff_paths("/foo/bar/baz", "/foo/bar"), Ok("baz".to_string()));
    assert_eq!(diff_paths("/foo/bar", "baz"), Ok("/foo/bar".to_string()));
    assert_eq!(diff_paths("foo", "/bar"), Err(BundleError::NoRelativePath));
    assert_eq!(diff_paths("/a/b", "/a/../c"), Err(BundleError::NoRelativePath));
}
