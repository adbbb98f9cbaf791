use nix_darwin_bundle::copy::{
    destination_parent, entry_step, plan_dependencies, plan_link, walk_destination, writable_mode,
    DepCopy, Dependency, EntryKind, EntryStep, Job,
};
use nix_darwin_bundle::error::BundleError;
use nix_darwin_bundle::macho::{is_mach_object, patch_arguments};

fn dep(path: &str, exists: bool) -> Dependency {
    Dependency { path: path.to_string(), exists }
}

#[test]
fn entry_steps() {
    assert_eq!(entry_step(false, EntryKind::File), EntryStep::CopyFile);
    assert_eq!(entry_step(false, EntryKind::Symlink), EntryStep::Link);
    assert_eq!(entry_step(false, EntryKind::Other), EntryStep::Skip);
}

#[test]
fn second_copy_skips_existing_destinations() {
    assert_eq!(entry_step(true, EntryKind::File), EntryStep::Skip);
    assert_eq!(entry_step(true, EntryKind::Symlink), EntryStep::Skip);
    assert_eq!(entry_step(true, EntryKind::Other), EntryStep::Skip);
}

#[test]
fn destination_parent_cases() {
    assert_eq!(destination_parent("/out/App.app/bin/app"), Ok("/out/App.app/bin".to_string()));
    assert_eq!(destination_parent("/"), Err(BundleError::NoParent));
}

#[test]
fn walk_destination_cases() {
    assert_eq!(
        walk_destination("/src/App.app/Contents/MacOS/app", "/src/App.app", "/out/App.app"),
        Ok("/out/App.app/Contents/MacOS/app".to_string())
    );
    assert_eq!(
        walk_destination("/elsewhere/x", "/src/App.app", "/out/App.app"),
        Err(BundleError::OutsideWalkedDir)
    );
}

#[test]
fn owner_write_bit_is_added() {
    assert_eq!(writable_mode(0o444), 0o644);
    assert_eq!(writable_mode(0o555), 0o755);
    assert_eq!(writable_mode(0o100644), 0o100644);
}

#[test]
fn symlink_to_store_directory_is_relative_and_followed() {
    let plan = plan_link(
        "/out/App.app/lib",
        "/nix/store/xyz-lib/lib",
        true,
        "/out/App.app/Contents/nix",
    )
    .unwrap();
    assert_eq!(plan.value, "../Contents/nix/xyz-lib/lib");
    assert!(!plan.value.starts_with('/'));
    assert!(!plan.value.contains("/nix/store"));
    assert_eq!(
        plan.follow,
        Some(Job {
            src: "/nix/store/xyz-lib/lib".to_string(),
            dst: "/out/App.app/Contents/nix/xyz-lib/lib".to_string(),
            whole_tree: true,
        })
    );
}

#[test]
fn symlink_to_store_file_is_copied_alone() {
    let plan = plan_link("/out/b", "/nix/store/q-x/bin/x", false, "/out/b/nix").unwrap();
    assert_eq!(plan.value, "nix/q-x/bin/x");
    assert_eq!(plan.follow.unwrap().whole_tree, false);
}

#[test]
fn symlink_outside_store_is_kept() {
    let plan = plan_link("/out/lib", "/usr/lib/libSystem.B.dylib", false, "/out/nix").unwrap();
    assert_eq!(plan.value, "/usr/lib/libSystem.B.dylib");
    assert_eq!(plan.follow, None);
}

#[test]
fn symlink_without_relative_path_fails() {
    assert_eq!(
        plan_link("/out/../lib", "/nix/store/xyz-lib/lib", true, "/out/nix"),
        Err(BundleError::NoRelativePath)
    );
}

#[test]
fn binary_with_one_store_dependency() {
    assert!(is_mach_object(&[0xFE, 0xED, 0xFA, 0xCF, 0x07, 0x00, 0x00, 0x01]));
    let root = "/out/App.app/Contents/nix";
    let copies = plan_dependencies(
        &vec![
            dep("/nix/store/abc123-libfoo/lib/libfoo.dylib", true),
            dep("/usr/lib/libSystem.B.dylib", true),
        ],
        root,
    );
    assert_eq!(
        copies,
        vec![DepCopy {
            src: "/nix/store/abc123-libfoo/lib/libfoo.dylib".to_string(),
            dst: "/out/App.app/Contents/nix/abc123-libfoo/lib/libfoo.dylib".to_string(),
            install_name: "@rpath/abc123-libfoo/lib/libfoo.dylib".to_string(),
        }]
    );
    let args = patch_arguments("/out/App.app/bin/app", "/out/App.app/bin", &copies, root)
        .unwrap()
        .unwrap();
    assert_eq!(
        args,
        vec![
            "-change",
            "/nix/store/abc123-libfoo/lib/libfoo.dylib",
            "@rpath/abc123-libfoo/lib/libfoo.dylib",
            "-add_rpath",
            "@loader_path/../Contents/nix",
            "/out/App.app/bin/app",
        ]
    );
}

#[test]
fn collected_dependency_is_passed_over() {
    let copies = plan_dependencies(
        &vec![dep("/nix/store/gone-lib/lib/libgone.dylib", false)],
        "/out/nix",
    );
    assert!(copies.is_empty());
    assert_eq!(patch_arguments("/out/bin/app", "/out/bin", &copies, "/out/nix"), Ok(None));
}

#[test]
fn shared_dependency_is_relocated_once() {
    let root = "/out/nix";
    let shared = "/nix/store/d-lib/lib/libd.dylib";
    let a = plan_dependencies(&vec![dep("/nix/store/a-lib/lib/liba.dylib", true), dep(shared, true)], root);
    let b = plan_dependencies(&vec![dep(shared, true)], root);
    assert_eq!(a[1], b[0]);
    assert_eq!(b[0].dst, "/out/nix/d-lib/lib/libd.dylib");
    assert_eq!(entry_step(true, EntryKind::File), EntryStep::Skip);
}

#[test]
fn binary_without_store_dependencies_is_not_patched() {
    let copies = plan_dependencies(&vec![dep("/usr/lib/libSystem.B.dylib", true)], "/out/nix");
    assert!(copies.is_empty());
    assert_eq!(patch_arguments("/out/bin/app", "/out/bin", &copies, "/out/nix"), Ok(None));
}

#[test]
fn patch_request_lists_every_change_in_order() {
    let copies = plan_dependencies(
        &vec![dep("/nix/store/a-x/lib/a.dylib", true), dep("/nix/store/b-y/lib/b.dylib", true)],
        "/o/nix",
    );
    let args = patch_arguments("/o/nix/c-z/bin/c", "/o/nix/c-z/bin", &copies, "/o/nix").unwrap().unwrap();
    assert_eq!(
        args,
        vec![
            "-change",
            "/nix/store/a-x/lib/a.dylib",
            "@rpath/a-x/lib/a.dylib",
            "-change",
            "/nix/store/b-y/lib/b.dylib",
            "@rpath/b-y/lib/b.dylib",
            "-add_rpath",
            "@loader_path/../..",
            "/o/nix/c-z/bin/c",
        ]
    );
}
