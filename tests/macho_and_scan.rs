use nix_darwin_bundle::macho::is_mach_object;
use nix_darwin_bundle::scan::store_paths_in;

#[test]
fn recognises_mach_o_headers() {
    assert!(is_mach_object(&[0xFE, 0xED, 0xFA, 0xCF]));
    assert!(is_mach_object(&[0xFE, 0xED, 0xFA, 0xCE]));
    assert!(is_mach_object(&[0xFE, 0xED, 0xFA, 0xCF, 0x01, 0x00, 0x00, 0x07]));
    assert!(!is_mach_object(&[0xCF, 0xFA, 0xED, 0xFE]));
    assert!(!is_mach_object(&[0xFE, 0xED, 0xFA, 0xCD]));
    assert!(!is_mach_object(&[0xCA, 0xFE, 0xBA, 0xBE]));
    assert!(!is_mach_object(&[0xFE, 0xED, 0xFA]));
    assert!(!is_mach_object(&[]));
    assert!(!is_mach_object(b"#!/b"));
}

#[test]
fn finds_first_store_path_of_each_line() {
    let lines = vec![
        "exec /nix/store/abc-x/bin/y \"$@\"".to_string(),
        "no path here".to_string(),
        "a/nix/store/q:w /nix/store/zz".to_string(),
        "/nix/store/ alone".to_string(),
    ];
    assert_eq!(
        store_paths_in(&lines),
        vec!["/nix/store/abc-x/bin/y".to_string(), "/nix/store/q".to_string()]
    );
    assert_eq!(store_paths_in(&vec![]), Vec::<String>::new());
}
