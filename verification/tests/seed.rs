use codlet::macos::control_pipe::RegistryScope;
use codlet::macos::identity::{valid_pid, ProcessIdentity};
use codlet::plugin_cli::official_seed::{
    added_permissions, check_journal, check_journal_paths, official_id, recovery_plan, temporary_entries_expected, valid,
    FileRecord, Journal, Package, RecoveryStep,
};
use codlet::plugin_permissions::BrokerPolicy;
use codlet::plugin_update_source::{is_canonical_repository_url, UpdateChannel};
use codlet::github_distribution::GitHubSource;
use codlet::plugins::{LocalPluginRegistration, Permission};

fn file(path: &str, bytes: u64) -> FileRecord {
    FileRecord { path: path.into(), sha256: "0".repeat(64), bytes }
}

fn package(files: Vec<FileRecord>) -> Package {
    Package { id: "codlet-gui".into(), version: "1.0.0".into(), permissions: vec![Permission::UiDom], files }
}

#[test]
fn official_packages_need_plain_unique_files_and_a_manifest() {
    assert!(valid(&package(vec![file("codlet.json", 10), file("dist/entry.js", 10)])).is_ok());
    let e = valid(&package(vec![file("entry.js", 10)])).unwrap_err();
    assert_eq!(e.code, "official_seed");
    assert_eq!(e.message, "Invalid package size or missing manifest");
    for bad in ["", "/abs.js", "a//b.js", "./a.js", "a/../b.js", "a\\b.js", "a b.js"] {
        let e = valid(&package(vec![file("codlet.json", 1), file(bad, 1)])).unwrap_err();
        assert_eq!(e.message, "Invalid official package file record");
    }
    let e = valid(&package(vec![file("codlet.json", 1), file("CODLET.json", 1)])).unwrap_err();
    assert_eq!(e.message, "Invalid official package file record");
    let mut f = file("codlet.json", 1);
    f.sha256 = "A".repeat(64);
    assert!(valid(&package(vec![f])).is_err());
    assert!(valid(&package(vec![file("codlet.json", 16 * 1024 * 1024 + 1)])).is_err());
    let big: Vec<FileRecord> = (0..5).map(|i| file(&format!("f{i}.bin"), 16 * 1024 * 1024)).collect();
    let mut files = big;
    files.push(file("codlet.json", 1));
    assert_eq!(valid(&package(files)).unwrap_err().message, "Invalid package size or missing manifest");
    let e = valid(&package(vec![])).unwrap_err();
    assert_eq!(e.message, "Invalid official package identity or file count");
    assert!(official_id("codex.ui.adapter"));
    assert!(!official_id("dev.other"));
}

#[test]
fn updates_add_only_permissions_neither_granted_nor_previously_declared() {
    let declared = vec![Permission::UiDom, Permission::HostFs, Permission::HostNetwork];
    let grants = vec![Permission::UiDom];
    let previous = vec![Permission::HostFs];
    assert_eq!(
        added_permissions(&declared, &grants, true, Some(&previous)),
        vec![Permission::HostNetwork]
    );
    assert_eq!(
        added_permissions(&declared, &grants, false, Some(&previous)),
        vec![Permission::HostFs, Permission::HostNetwork]
    );
    assert_eq!(added_permissions(&declared, &grants, true, None), vec![Permission::HostFs, Permission::HostNetwork]);
}

#[test]
fn update_channels_need_a_canonical_repository_and_consistent_identities() {
    let mut c = UpdateChannel {
        kind: "github".into(),
        repository_url: "https://github.com/dev-owner/dev-repo".into(),
        repository_id: Some(42),
        owner_id: Some(7),
        asset_name_template: "plugin.zip".into(),
    };
    assert!(c.validate(true).is_ok());
    assert!(is_canonical_repository_url("https://github.com/a/b"));
    assert!(!is_canonical_repository_url("https://github.com/a"));
    assert!(!is_canonical_repository_url("https://github.com/a/b/c"));
    assert!(!is_canonical_repository_url("http://github.com/a/b"));
    let mut source = GitHubSource {
        repository_url: "https://github.com/Dev-Owner/Dev-Repo".into(),
        owner: "dev-owner".into(),
        repository: "dev-repo".into(),
        repository_id: Some(42),
        owner_id: Some(7),
        release_id: 1,
        tag: "v1.0.0".into(),
        asset_id: 1,
        asset_name: "plugin.zip".into(),
        asset_url: String::new(),
        asset_size: 1,
        sha256: "a".repeat(64),
        upstream_digest_verified: true,
    };
    assert!(c.accepts(&source));
    source.owner_id = Some(8);
    assert!(!c.accepts(&source));
    c.owner_id = None;
    assert!(c.validate(false).is_err());
    c.repository_id = None;
    assert!(c.validate(false).is_ok());
    assert!(c.validate(true).is_err());
    c.asset_name_template = "dir/plugin.zip".into();
    assert!(c.validate(false).is_err());
}

#[test]
fn registry_scopes_are_named_by_the_hash_of_their_path() {
    let scope = RegistryScope::for_path("/Users/me/Library/Codlet/config.json", "/tmp/codlet");
    assert_eq!(scope.path(), "/Users/me/Library/Codlet/config.json");
    assert_eq!(scope.id().len(), 64);
    assert_eq!(scope.socket_name(), format!("{}.sock", &scope.id()[..32]));
    assert_eq!(scope.lock_name(), format!("{}.lock", &scope.id()[..32]));
    let other = RegistryScope::for_path("/Users/me/Library/Codlet/other.json", "/tmp/codlet");
    assert_ne!(scope.id(), other.id());
}

#[test]
fn process_identities_must_match_their_incarnation() {
    let identity = ProcessIdentity {
        pid: 42,
        uid: 501,
        started_seconds: 10,
        started_microseconds: 20,
        executable: "/Applications/Codlet.app/Contents/MacOS/codlet".into(),
    };
    assert!(identity.check_live(&identity.clone()).is_ok());
    let mut changed = identity.clone();
    changed.started_microseconds ^= 1;
    assert!(identity.check_live(&changed).is_err());
    assert!(valid_pid(1));
    assert!(!valid_pid(0));
    assert!(!valid_pid(u32::MAX));
}

fn registration(path: &str) -> LocalPluginRegistration {
    LocalPluginRegistration {
        path: path.into(),
        grants: vec![Permission::UiDom],
        broker_policy: BrokerPolicy { read_roots: vec![], network_origins: vec![], executables: vec![] },
    }
}

fn journal(committed: bool, previous: bool) -> Journal {
    let target = "/home/packages/codlet-gui";
    Journal {
        schema: 1,
        id: "codlet-gui".into(),
        previous: if previous { Some(registration(target)) } else { None },
        next: registration(target),
        previous_enabled: true,
        enabled: true,
        previous_package: if previous { Some(package(vec![file("codlet.json", 1)])) } else { None },
        package: package(vec![file("codlet.json", 2), file("dist/entry.js", 3)]),
        previous_receipt: None,
        committed,
    }
}

#[test]
fn interrupted_seed_transactions_are_rolled_back_or_finished() {
    let j = journal(false, true);
    assert!(check_journal(&j, "codlet-gui").is_ok());
    assert_eq!(check_journal(&j, "codex.ui.adapter").unwrap_err().message, "Invalid transaction identity");
    let mut other = journal(false, true);
    other.schema = 2;
    assert_eq!(check_journal(&other, "codlet-gui").unwrap_err().message, "Invalid installer journal");
    assert!(check_journal_paths(&j, "/home/packages/codlet-gui").is_ok());
    assert_eq!(
        check_journal_paths(&j, "/elsewhere").unwrap_err().message,
        "Installer journal path escaped its owned directory"
    );

    // Staged before the swap: the previous package is still in place.
    let plan = recovery_plan(&j, "old", "old", "new", false, true, true, true).unwrap();
    assert_eq!(plan, vec![RecoveryStep::VerifyTargetAsPrevious, RecoveryStep::RestoreRegistration, RecoveryStep::RemoveReceipt, RecoveryStep::CleanTemporary, RecoveryStep::RemoveJournal]);
    // Swapped but not committed: the backup goes back.
    let plan = recovery_plan(&j, "new", "old", "new", true, true, false, false).unwrap();
    assert_eq!(
        plan,
        vec![RecoveryStep::VerifyBackup, RecoveryStep::VerifyTargetRemainder, RecoveryStep::RemoveTarget, RecoveryStep::RestoreBackup, RecoveryStep::RestoreRegistration, RecoveryStep::RemoveJournal]
    );
    // Committed: the backup is cleaned up and the registration kept.
    let plan = recovery_plan(&journal(true, true), "new", "old", "new", true, true, false, false).unwrap();
    assert_eq!(plan, vec![RecoveryStep::VerifyTarget, RecoveryStep::VerifyBackupRemainder, RecoveryStep::RemoveBackup, RecoveryStep::RemoveJournal]);
    // A first install with a backup that no journal explains is refused.
    let plan = recovery_plan(&journal(true, false), "new", "old", "new", true, true, false, false).unwrap();
    assert_eq!(plan, vec![RecoveryStep::VerifyTarget, RecoveryStep::RefuseUnexpectedBackup, RecoveryStep::RemoveJournal]);
    let plan = recovery_plan(&journal(false, false), "old", "old", "new", false, true, false, false).unwrap();
    assert_eq!(plan, vec![RecoveryStep::VerifyTargetRemainder, RecoveryStep::RemoveTarget, RecoveryStep::RestoreRegistration, RecoveryStep::RemoveJournal]);

    let e = recovery_plan(&j, "later", "old", "new", false, true, false, false).unwrap_err();
    assert_eq!(e.message, "A later source or authorization change prevents automatic recovery");
    let e = recovery_plan(&journal(true, true), "old", "old", "new", false, true, false, false).unwrap_err();
    assert_eq!(e.message, "Committed registration changed before cleanup");
}

#[test]
fn staging_cleanup_accepts_only_package_paths() {
    let p = package(vec![file("codlet.json", 2), file("dist/entry.js", 3)]);
    let names = |v: &[&str]| v.iter().map(|s| s.to_string()).collect::<Vec<String>>();
    assert!(temporary_entries_expected(&names(&["codlet.json", "dist/entry.js"]), &names(&["dist"]), &p));
    assert!(temporary_entries_expected(&names(&["dist/entry.js"]), &names(&[]), &p));
    assert!(!temporary_entries_expected(&names(&["author.txt"]), &names(&[]), &p));
    assert!(!temporary_entries_expected(&names(&[]), &names(&["dis"]), &p));
    assert!(!temporary_entries_expected(&names(&[]), &names(&["docs"]), &p));
}

use codlet::macos::control_pipe::{
    connect_failure_status, frame_header, frame_length, private_socket_directory, ConnectFailure,
};
use codlet::plugin_cli::ControlStatus;

#[test]
fn control_frames_announce_their_length_little_endian() {
    assert_eq!(frame_header(0x0102_0304), [4, 3, 2, 1]);
    assert_eq!(frame_length([4, 3, 2, 1], 0x0102_0304), Some(0x0102_0304));
    assert_eq!(frame_length([4, 3, 2, 1], 0x0102_0303), None);
    assert_eq!(frame_length([0, 0, 0, 0], 10), None);
    assert_eq!(frame_length(frame_header(300), 300), Some(300));
}

#[test]
fn socket_directory_must_be_private() {
    assert!(private_socket_directory(true, false, 501, 501, 0o40700));
    assert!(!private_socket_directory(true, false, 501, 501, 0o40755));
    assert!(!private_socket_directory(true, true, 501, 501, 0o700));
    assert!(!private_socket_directory(true, false, 0, 501, 0o700));
    assert!(!private_socket_directory(false, false, 501, 501, 0o700));
}

#[test]
fn a_missing_or_refusing_socket_means_no_host_runs() {
    assert_eq!(connect_failure_status(ConnectFailure::Missing), ControlStatus::NotRunning);
    assert_eq!(connect_failure_status(ConnectFailure::Refused), ControlStatus::NotRunning);
    assert_eq!(connect_failure_status(ConnectFailure::TimedOut), ControlStatus::Timeout);
    assert_eq!(connect_failure_status(ConnectFailure::Other), ControlStatus::CommunicationError);
}

use codlet::plugin_cli::official_seed::{
    catalog_package, check_candidate, check_source_owner, check_source_present, migration, proof_sources, ProofSource, Receipt,
};

fn official(id: &str) -> Package {
    Package { id: id.into(), version: "1.0.0".into(), permissions: vec![Permission::UiDom], files: vec![file("codlet.json", 1)] }
}

#[test]
fn the_catalog_lists_each_official_plugin_once() {
    let packages = vec![official("codex.ui.adapter"), official("codlet-gui")];
    let bundle = "codlet-official-plugin-bundle";
    assert_eq!(catalog_package("codlet-gui", 1, bundle, &packages).unwrap(), 1);
    assert_eq!(catalog_package("dev.other", 1, bundle, &packages).unwrap_err().message, "Unknown official plugin");
    assert_eq!(catalog_package("codlet-gui", 2, bundle, &packages).unwrap_err().message, "Invalid official plugin catalog");
    assert_eq!(catalog_package("codlet-gui", 1, "other", &packages).unwrap_err().message, "Invalid official plugin catalog");
    assert_eq!(
        catalog_package("codex.desktop.adapter", 1, bundle, &packages).unwrap_err().message,
        "Catalog identity is missing or duplicated"
    );
    let twice = vec![official("codlet-gui"), official("codlet-gui")];
    assert!(catalog_package("codlet-gui", 1, bundle, &twice).is_err());
}

#[test]
fn the_installed_manifest_must_be_the_catalogs() {
    let p = official("codlet-gui");
    assert!(check_candidate("codlet-gui", "1.0.0", &vec![Permission::UiDom], &p).is_ok());
    assert_eq!(
        check_candidate("codlet-gui", "1.0.1", &vec![Permission::UiDom], &p).unwrap_err().message,
        "Catalog and manifest differ"
    );
    assert!(check_candidate("codlet-gui", "1.0.0", &vec![], &p).is_err());
}

#[test]
fn only_the_installer_owned_source_is_replaced() {
    assert!(check_source_owner("codlet-gui", false, None, "/p/codlet-gui").is_ok());
    assert!(check_source_owner("codlet-gui", false, Some("/p/codlet-gui"), "/p/codlet-gui").is_ok());
    let e = check_source_owner("codlet-gui", false, Some("/dev/gui"), "/p/codlet-gui").unwrap_err();
    assert_eq!(e.code, "official_seed_source_changed");
    assert_eq!(e.message, migration("codlet-gui uses a custom or GitHub source").message);
    assert!(e.message.starts_with("官方插件未更新：codlet-gui uses a custom or GitHub source。"));
    assert!(check_source_owner("codlet-gui", true, None, "/p/codlet-gui").is_err());
    assert!(check_source_present("codlet-gui", false, false).is_ok());
    let e = check_source_present("codlet-gui", false, true).unwrap_err();
    assert!(e.message.contains("codlet-gui source directory is missing"));
}

#[test]
fn installed_bytes_are_proved_by_receipt_script_catalog_then_legacy() {
    let id = "codlet-gui";
    let receipt = Receipt { schema: 1, source: "official-installer".into(), package: official(id) };
    let legacy = vec![
        ("a".repeat(40), official(id)),
        ("g".repeat(40), official(id)),
        ("ABCDEF0123".repeat(4), official(id)),
        ("a".repeat(40), official("codex.ui.adapter")),
    ];
    let old = official(id);
    let sources = proof_sources(id, Some(&receipt), Some(&old), &official(id), &legacy);
    assert_eq!(
        sources,
        vec![ProofSource::Receipt, ProofSource::OldScript, ProofSource::Catalog, ProofSource::Legacy(0), ProofSource::Legacy(2)]
    );
    let foreign = Receipt { schema: 1, source: "script".into(), package: official(id) };
    assert_eq!(proof_sources(id, Some(&foreign), None, &official(id), &vec![]), vec![ProofSource::Catalog]);
}

#[test]
fn official_seed_rejects_modified_or_redirected_receipt_and_journal_paths() {
    let target = "/home/packages/codlet-gui";
    let mut redirected = journal(false, true);
    redirected.next.path = "/home/author".into();
    assert!(check_journal(&redirected, "codlet-gui").is_ok());
    let e = check_journal_paths(&redirected, target).unwrap_err();
    assert_eq!(e.code, "official_seed");
    assert_eq!(e.message, "Installer journal path escaped its owned directory");

    let mut previous_elsewhere = journal(false, true);
    previous_elsewhere.previous.as_mut().unwrap().path = "/home/author".into();
    assert!(check_journal_paths(&previous_elsewhere, target).is_err());

    let renamed = journal(false, true);
    assert_eq!(check_journal(&renamed, "codex.ui.adapter").unwrap_err().message, "Invalid transaction identity");
    let mut foreign_package = journal(false, true);
    foreign_package.package.id = "codex.ui.adapter".into();
    assert_eq!(check_journal(&foreign_package, "codlet-gui").unwrap_err().message, "Invalid installer journal");
    assert!(check_journal_paths(&journal(false, true), target).is_ok());
}
