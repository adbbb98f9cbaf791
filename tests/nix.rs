use nix_darwin_bundle::nix::{
    build_arguments, bundle_paths, existing_target, extra_build_arguments, is_app_name,
    show_arguments, ExistingTarget,
};

fn strings(v: &[&str]) -> Vec<String> {
    v.iter().map(|s| s.to_string()).collect()
}

#[test]
fn build_command_line() {
    assert_eq!(
        build_arguments(&strings(&["hello", "cowsay"]), &strings(&["--file", "<nixpkgs>"])),
        strings(&[
            "--extra-experimental-features",
            "nix-command flakes",
            "build",
            "--no-link",
            "--print-out-paths",
            "--file",
            "<nixpkgs>",
            "hello",
            "cowsay",
        ])
    );
    assert_eq!(
        show_arguments("nixpkgs#hello"),
        strings(&["--extra-experimental-features", "nix-command flakes", "derivation", "show", "nixpkgs#hello"])
    );
}

#[test]
fn build_options_from_mode() {
    assert_eq!(extra_build_arguments(true, None, strings(&["-L"])), strings(&["-L", "--file", "<nixpkgs>"]));
    assert_eq!(
        extra_build_arguments(true, Some("x.nix".to_string()), vec![]),
        strings(&["--file", "<nixpkgs>"])
    );
    assert_eq!(
        extra_build_arguments(false, Some("x.nix".to_string()), vec![]),
        strings(&["--file", "x.nix"])
    );
    assert_eq!(extra_build_arguments(false, None, strings(&["-L"])), strings(&["-L"]));
}

#[test]
fn existing_bundle_decisions() {
    assert_eq!(existing_target(false, false), ExistingTarget::Proceed);
    assert_eq!(existing_target(false, true), ExistingTarget::Proceed);
    assert_eq!(existing_target(true, true), ExistingTarget::Replace);
    assert_eq!(existing_target(true, false), ExistingTarget::Refuse);
}

#[test]
fn bundle_layout() {
    assert_eq!(
        bundle_paths("/work/results", "Foo.app"),
        ("/work/results/Foo.app".to_string(), "/work/results/Foo.app/Contents/nix".to_string())
    );
}

#[test]
fn application_names() {
    assert!(is_app_name("Foo.app"));
    assert!(!is_app_name(".app"));
    assert!(!is_app_name("Foo.apps"));
    assert!(!is_app_name("Foo"));
}
