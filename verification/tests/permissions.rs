use codlet::os_broker::{byte_limit, guard_check, permission_for_endpoint, DEFAULT_OS_BYTES};
use codlet::platform::PathStyle;
use codlet::plugin_permissions::{normalize_origin, validate_policy_path, BrokerPolicy};
use codlet::plugins::{LocalPluginRegistration, Permission};

fn policy(read_roots: &[&str], origins: &[&str], executables: &[&str]) -> BrokerPolicy {
    BrokerPolicy {
        read_roots: read_roots.iter().map(|s| s.to_string()).collect(),
        network_origins: origins.iter().map(|s| s.to_string()).collect(),
        executables: executables.iter().map(|s| s.to_string()).collect(),
    }
}

#[test]
fn policy_paths_are_bounded_absolute_and_free_of_dot_segments() {
    let posix = PathStyle::Posix;
    assert!(validate_policy_path("/data/plugins", posix).is_ok());
    assert!(validate_policy_path("data/plugins", posix).is_err());
    assert!(validate_policy_path("/data/../etc", posix).is_err());
    assert!(validate_policy_path("/data/./x", posix).is_err());
    assert!(validate_policy_path("/data\\..\\x", posix).is_err());
    assert!(validate_policy_path("/data/\0", posix).is_err());
    assert!(validate_policy_path("", posix).is_err());
    assert!(validate_policy_path(&format!("/{}", "a".repeat(4095)), posix).is_ok());
    assert!(validate_policy_path(&format!("/{}", "a".repeat(4096)), posix).is_err());
}

#[test]
fn windows_policy_paths_need_a_local_drive_and_plain_names() {
    let windows = PathStyle::Windows;
    assert!(validate_policy_path(r"C:\Tools\node.exe", windows).is_ok());
    assert!(validate_policy_path(r"\\?\C:\Tools", windows).is_ok());
    assert!(validate_policy_path(r"C:relative", windows).is_err());
    assert!(validate_policy_path(r"\\server\share\x", windows).is_err());
    assert!(validate_policy_path(r"C:\Tools\file.txt:stream", windows).is_err());
    assert!(validate_policy_path(r"C:\Tools\trailing.", windows).is_err());
    assert!(validate_policy_path(r"C:\Tools\trailing ", windows).is_err());
    assert!(validate_policy_path(r"C:\Tools\con.txt", windows).is_err());
    assert!(validate_policy_path(r"C:\Tools\COM1", windows).is_err());
    assert!(validate_policy_path(r"C:\Tools\lpt²", windows).is_err());
    assert!(validate_policy_path(r"C:\Tools\COM10", windows).is_ok());
}

#[test]
fn policies_refuse_duplicates_unnormalised_origins_and_bad_executables() {
    let posix = PathStyle::Posix;
    assert!(policy(&[], &[], &[]).is_empty());
    assert!(policy(&["/data"], &["https://api.example.test"], &["/bin/tool"]).validate(posix).is_ok());
    assert!(policy(&["/data", "/data/"], &[], &[]).validate(posix).is_err());
    assert!(policy(&[], &["https://api.example.test/"], &[]).validate(posix).is_err());
    assert!(policy(&[], &["https://api.example.test", "https://api.example.test"], &[]).validate(posix).is_err());
    assert!(policy(&[], &[], &[r"C:\tools\run.cmd"]).validate(PathStyle::Windows).is_err());
    assert!(policy(&[], &[], &[r"C:\tools\run.EXE"]).validate(PathStyle::Windows).is_ok());
    assert!(policy(&[r"C:\Data", r"c:/Data"], &[], &[]).validate(PathStyle::Windows).is_err());
    let many: Vec<String> = (0..33).map(|i| format!("/data/{i}")).collect();
    let refs: Vec<&str> = many.iter().map(|s| s.as_str()).collect();
    assert!(policy(&refs, &[], &[]).validate(posix).is_err());
}

#[test]
fn broker_scopes_require_their_explicit_grants() {
    let posix = PathStyle::Posix;
    let p = policy(&["/data"], &["https://api.example.test"], &[]);
    assert!(p.validate_grants(&vec![Permission::HostFs, Permission::HostNetwork], posix).is_ok());
    assert!(p.validate_grants(&vec![Permission::HostFs], posix).is_err());
    assert!(p.validate_grants(&vec![Permission::HostNetwork], posix).is_err());
}

#[test]
fn explicit_inputs_are_normalised_before_validation() {
    let p = BrokerPolicy::from_explicit_inputs(
        vec!["/data".into()],
        &vec!["HTTPS://API.example.test:443/".into()],
        vec![],
        PathStyle::Posix,
    )
    .unwrap();
    assert_eq!(p.network_origins, vec!["https://api.example.test".to_string()]);
    assert!(BrokerPolicy::from_explicit_inputs(vec![], &vec!["ftp://x.test".into()], vec![], PathStyle::Posix).is_err());
    assert_eq!(normalize_origin("http://localhost:8080").unwrap(), "http://localhost:8080");
    assert!(normalize_origin("ws://localhost").is_err());
}

#[test]
fn removing_a_permission_withdraws_only_its_own_scopes() {
    let mut r = LocalPluginRegistration {
        path: "/plugins/dev".into(),
        grants: vec![Permission::UiDom, Permission::HostFs, Permission::HostNetwork],
        broker_policy: policy(&["/data"], &["https://api.example.test"], &["/bin/tool"]),
    };
    assert!(r.remove_permission(Permission::HostFs));
    assert_eq!(r.grants, vec![Permission::UiDom, Permission::HostNetwork]);
    assert!(r.broker_policy.read_roots.is_empty());
    assert_eq!(r.broker_policy.network_origins.len(), 1);
    assert_eq!(r.broker_policy.executables.len(), 1);
    assert!(!r.remove_permission(Permission::HostFs));
    assert!(r.remove_permission(Permission::HostProcess));
    assert!(r.broker_policy.executables.is_empty());
    assert!(!r.remove_permission(Permission::HostSystem));
}

#[test]
fn endpoints_map_to_their_permission_and_byte_limits_are_bounded() {
    assert_eq!(permission_for_endpoint("host.fs.readDir"), Some(Permission::HostFs));
    assert_eq!(permission_for_endpoint("host.network.authorizeForward"), Some(Permission::HostNetwork));
    assert_eq!(permission_for_endpoint("host.process.run"), Some(Permission::HostProcess));
    assert_eq!(permission_for_endpoint("host.system.info"), Some(Permission::HostSystem));
    assert_eq!(permission_for_endpoint("host.fs.write"), None);
    assert_eq!(byte_limit(None).unwrap(), DEFAULT_OS_BYTES);
    assert_eq!(byte_limit(Some(1)).unwrap(), 1);
    assert_eq!(byte_limit(Some(0)).unwrap_err().code, "invalid_params");
    assert_eq!(byte_limit(Some(262_145)).unwrap_err().code, "invalid_params");
    assert_eq!(guard_check(true, true, false, false).unwrap_err().code, "cancelled");
    assert_eq!(guard_check(false, true, false, false).unwrap_err().code, "deadline_exceeded");
    assert_eq!(guard_check(false, false, false, false).unwrap_err().code, "permission_revoked");
    assert_eq!(guard_check(false, false, true, false).unwrap_err().code, "broker_stopped");
    assert!(guard_check(false, false, true, true).is_ok());
}
