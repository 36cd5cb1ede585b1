use codlet::os_broker::filesystem::{check_exact_grant, contains_path, first_containing_root, lexical_path, paths_equal};
use codlet::platform::path::{path_key, same_path, within};
use codlet::platform::{DesktopTarget, PathStyle};

#[test]
fn os_and_architecture_jointly_select_the_runtime() {
    for ((os, arch), expected) in [
        (("windows", "x86_64"), Some(("win-x64", "node.exe"))),
        (("windows", "aarch64"), Some(("win-arm64", "node.exe"))),
        (("macos", "aarch64"), Some(("darwin-arm64", "bin/node"))),
        (("macos", "x86_64"), None),
        (("linux", "x86_64"), None),
        (("linux", "aarch64"), None),
        (("windows", "x86"), None),
    ] {
        assert_eq!(
            DesktopTarget::for_system(os, arch).map(|target| (target.node_platform(), target.node_executable())),
            expected
        );
    }
}

#[test]
fn posix_containment_keeps_case_and_literal_backslashes() {
    let posix = PathStyle::Posix;
    assert!(within("/plugins/demo/entry.js", "/plugins/demo", posix));
    assert!(!within("/plugins/demo-other", "/plugins/demo", posix));
    assert!(!same_path("/plugins/demo", "/plugins/Demo", posix));
    assert!(!same_path("/plugins/a\\b", "/plugins/a/b", posix));
}

#[test]
fn broker_path_authority_preserves_component_case() {
    let windows = PathStyle::Windows;
    let root = r"C:\approved\foo";
    assert!(contains_path(root, r"\\?\c:\approved\foo\file.txt", windows));
    assert!(!contains_path(root, r"C:\approved\Foo\file.txt", windows));
    assert!(!contains_path(root, r"C:\Approved\foo\file.txt", windows));
    assert!(!contains_path(root, r"C:\approved\foobar\file.txt", windows));
    assert!(paths_equal(r"c:/approved/foo/node.exe", r"\\?\C:\approved\foo\node.exe", windows));
    assert!(!paths_equal(r"C:\approved\foo\node.exe", r"C:\approved\foo\NODE.EXE", windows));
    assert!(!paths_equal(r"C:\approved\é.txt", r"C:\approved\É.txt", windows));
}

#[test]
fn desktop_targets_use_their_own_path_style() {
    assert_eq!(DesktopTarget::MacOsArm64.path_style(), PathStyle::Posix);
    assert_eq!(DesktopTarget::WindowsX64.path_style(), PathStyle::Windows);
    assert_eq!(DesktopTarget::WindowsArm64.path_style(), PathStyle::Windows);
}

#[test]
fn windows_path_keys_fold_case_separators_and_verbatim_prefix() {
    let windows = PathStyle::Windows;
    assert_eq!(path_key(r"\\?\C:\Plugins\Demo\", windows), r"c:\plugins\demo");
    assert_eq!(path_key("C:/Plugins/Demo", windows), r"c:\plugins\demo");
    assert!(same_path(r"C:\Plugins\Demo", r"\\?\c:\plugins\demo\\", windows));
    assert!(within(r"C:\Plugins\Demo\entry.js", r"c:\plugins\demo", windows));
    assert!(!within(r"C:\Plugins\DemoOther", r"c:\plugins\demo", windows));
    assert_eq!(path_key("/plugins/Demo/", PathStyle::Posix), "/plugins/Demo/");
}

#[test]
fn posix_components_ignore_repeated_separators_and_dot_segments() {
    let posix = PathStyle::Posix;
    assert!(within("/plugins//demo/./entry.js", "/plugins/demo/", posix));
    assert!(within("/plugins/demo", "/plugins/demo", posix));
    assert!(!within("/plugins", "/plugins/demo", posix));
    assert!(!within("plugins/demo", "/plugins", posix));
    assert!(paths_equal("/a//b/", "/a/b", posix));
    assert!(!paths_equal("/a/b", "/a/B", posix));
}

#[test]
fn lexical_windows_paths_take_the_verbatim_spelling_with_an_uppercase_drive() {
    let windows = PathStyle::Windows;
    assert_eq!(lexical_path("c:/approved/foo", windows).unwrap(), r"\\?\C:\approved\foo");
    assert_eq!(lexical_path(r"\\?\d:\x", windows).unwrap(), r"\\?\D:\x");
    let error = lexical_path(r"C:\approved\..\secret", windows).unwrap_err();
    assert_eq!(error.code, "invalid_params");
    assert_eq!(lexical_path("/tmp/a", PathStyle::Posix).unwrap(), "/tmp/a");
    assert_eq!(lexical_path("tmp/a", PathStyle::Posix).unwrap_err().code, "invalid_params");
}

#[test]
fn exact_grants_and_granted_roots_are_checked_in_order() {
    let windows = PathStyle::Windows;
    let allowed = vec![r"C:\tools\a.exe".to_string(), r"C:\tools\b.exe".to_string()];
    assert_eq!(check_exact_grant(r"c:/tools/b.exe", &allowed, windows).unwrap(), r"\\?\C:\tools\b.exe");
    assert_eq!(check_exact_grant(r"C:\tools\c.exe", &allowed, windows).unwrap_err().code, "policy_denied");
    let roots = vec!["/data/one".to_string(), "/data".to_string()];
    assert_eq!(first_containing_root("/data/one/x", &roots, PathStyle::Posix).unwrap(), 0);
    assert_eq!(first_containing_root("/data/two/x", &roots, PathStyle::Posix).unwrap(), 1);
    assert_eq!(first_containing_root("/elsewhere", &roots, PathStyle::Posix).unwrap_err().code, "policy_denied");
}
