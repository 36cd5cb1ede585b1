use codlet::github_distribution::{GitHubAsset, GitHubRelease, GitHubSource, ReleaseCatalog};
use codlet::managed_plugins::{
    changes, check_rollback_package, preview_rollback, rollback_preview, record_with_version, validate_current, InstalledPackage,
    stage, ManagedChanges, ManagedOperation, ManagedPluginRecord, ManagedPreview, ManagedVersion};
use codlet::managed_storage::{
    check_checkpoint, check_journal_paths, checkpoint_action, checkpoint_allowed, checkpoint_retirable, needs_migration, publish_allowed,
    rollback_plan, CheckpointAction, InstallJournal, RegistrationCheckpoint, RollbackStep,
};
use codlet::plugin_cli::ControlStatus;
use codlet::plugin_control::{PluginControlAction, PluginControlError};
use codlet::plugin_update_install::{
    asset_pattern, needs_review, prepared_receipt, receipt_outcome, select_asset, update_request, update_submitted, Completion,
};
use codlet::plugin_updates::{latest_release, select_release, tag_version, PluginReleaseStatus, ReleaseState};
use codlet::platform::PathStyle;
use codlet::plugin_permissions::BrokerPolicy;
use codlet::plugins::{CapabilityDescriptor, CapabilityScope, LocalPluginRegistration, Permission, PluginManifest};
use codlet::runtime_update::newer_version;

fn source() -> GitHubSource {
    GitHubSource {
        repository_url: "https://github.com/example/notes".into(),
        owner: "example".into(),
        repository: "notes".into(),
        repository_id: None,
        owner_id: None,
        release_id: 1,
        tag: "v1.0.0".into(),
        asset_id: 11,
        asset_name: "notes.zip".into(),
        asset_url: "https://github.com/example/notes/releases/download/v1.0.0/notes.zip".into(),
        asset_size: 100,
        sha256: "a".repeat(64),
        upstream_digest_verified: true,
    }
}

fn catalog(tags: &[(&str, bool)]) -> ReleaseCatalog {
    ReleaseCatalog {
        repository_url: "https://github.com/example/notes".into(),
        truncated: false,
        requested_tag: None,
        requested_asset: None,
        releases: tags
            .iter()
            .enumerate()
            .map(|(i, (tag, prerelease))| GitHubRelease {
                id: i as u64 + 20,
                tag: tag.to_string(),
                name: tag.to_string(),
                url: format!("https://github.com/example/notes/releases/tag/{tag}"),
                prerelease: *prerelease,
                published_at: None,
                assets: vec![GitHubAsset {
                    id: i as u64 + 100,
                    name: "notes.zip".into(),
                    size: 100,
                    content_type: "application/zip".into(),
                    download_url: "https://github.com/example/notes/releases/download/v2.0.0/notes.zip".into(),
                    digest: None,
                    download_count: None,
                }],
            })
            .collect(),
    }
}

fn selection(tag: &str, releases: &ReleaseCatalog) -> PluginReleaseStatus {
    let mut source = source();
    source.tag = tag.into();
    let mut result = PluginReleaseStatus {
        version_key: "a".repeat(64),
        status: ReleaseState::Unknown,
        release_tag: None,
        release_url: None,
        error: None,
    };
    select_release(&source, releases, &mut result);
    result
}

#[test]
fn selects_highest_stable_tag_and_does_not_treat_build_or_older_releases_as_updates() {
    let releases = catalog(&[
        ("v2.0.0", false),
        ("v11.0.0-rc.1", true),
        ("v3.0.0", false),
        ("v10.0.0-beta.1", false),
        ("v0.9.0", false),
    ]);
    assert_eq!(selection("v1.0.0", &releases).release_tag.as_deref(), Some("v3.0.0"));
    assert_eq!(selection("v3.0.0", &releases).status.as_str(), "upToDate");
    assert_eq!(selection("v3.0.0+build.4", &catalog(&[("v3.0.0+build.5", false)])).status.as_str(), "upToDate");
    assert_eq!(
        selection("v3.0.0-beta.2", &catalog(&[("v3.0.0-beta.10", true)])).release_tag.as_deref(),
        Some("v3.0.0-beta.10")
    );
}

#[test]
fn custom_tags_truncated_catalogs_and_absent_packages_do_not_invent_available_updates() {
    assert_eq!(selection("nightly", &catalog(&[("v2.0.0", false)])).status.as_str(), "unknown");
    assert_eq!(selection("v1.0.0", &catalog(&[("nightly", false)])).status.as_str(), "unknown");
    let mut releases = catalog(&[("v2.0.0", false)]);
    releases.releases[0].assets.clear();
    assert_ne!(selection("v1.0.0", &releases).status.as_str(), "available");
    releases.truncated = true;
    assert_eq!(selection("v1.0.0", &releases).status.as_str(), "unknown");
}

#[test]
fn the_first_of_equal_precedence_releases_is_offered() {
    let releases = catalog(&[("v2.0.0", false), ("2.0.0", false), ("v1.5.0", false)]);
    let chosen = latest_release(&source(), &releases).unwrap();
    assert_eq!(chosen.id, 20);
    let mut installed = source();
    installed.release_id = 20;
    assert_eq!(latest_release(&installed, &releases).unwrap().id, 21);
    assert_eq!(tag_version("v1.2.3"), "1.2.3".chars().collect::<Vec<char>>());
    assert_eq!(tag_version("1.2.3"), "1.2.3".chars().collect::<Vec<char>>());
    assert_eq!(newer_version("1.0.0-alpha.10", "1.0.0-alpha.9"), Ok(true));
    assert_eq!(newer_version("1.0.0-alpha", "1.0.0"), Ok(false));
    assert!(newer_version("1.0", "1.0.0").is_err());
}

fn manifest(permissions: Vec<Permission>) -> PluginManifest {
    PluginManifest {
        id: "dev.update-test".into(),
        version: "1.1.0".into(),
        permissions,
        provides: vec![],
        requires: vec![],
        renderer_entry: Some("renderer.js".into()),
        host_entry: None,
    }
}

fn prepared() -> ManagedPreview {
    let mut source = source();
    source.tag = "v1.1.0".into();
    ManagedPreview {
        schema: 1,
        kind: "codlet.managed-preview".into(),
        operation: ManagedOperation::Update,
        path: "/data/packages/dev.update-test/1.1.0".into(),
        content_digest: "c".repeat(64),
        registration_digest: "d".repeat(64),
        manifest: manifest(vec![Permission::UiDom]),
        source,
        existing_registration: Some(LocalPluginRegistration {
            path: "/data/packages/dev.update-test/1.0.0".into(),
            grants: vec![Permission::UiDom],
            broker_policy: BrokerPolicy { read_roots: vec![], network_origins: vec![], executables: vec![] },
        }),
        existing_enabled: true,
        current_version: None,
        history: vec![],
        changes: ManagedChanges {
            permissions_added: vec![],
            permissions_removed: vec![],
            requirements_added: vec![],
            requirements_removed: vec![],
            provides_added: vec![],
            provides_removed: vec![],
            restart_required: false,
        },
        ownership: "core-managed-github".into(),
    }
}

#[test]
fn existing_grants_update_directly_but_new_authority_and_dependency_changes_require_review() {
    let mut p = prepared();
    assert!(!needs_review(&p));
    p.operation = ManagedOperation::Adopt;
    assert!(needs_review(&p));
    p.operation = ManagedOperation::Update;
    p.changes.restart_required = true;
    assert!(needs_review(&p));
    p.changes.restart_required = false;
    p.manifest.permissions.push(Permission::RuntimeManage);
    assert!(needs_review(&p));
    p.manifest.permissions.pop();
    p.changes.requirements_added.push(CapabilityDescriptor::new("other.service", 1, CapabilityScope::Target));
    assert!(needs_review(&p));
    p.changes.requirements_added.clear();
    p.changes.provides_removed.push(CapabilityDescriptor::new("old.service", 1, CapabilityScope::Target));
    assert!(needs_review(&p));
}

#[test]
fn release_asset_selection_keeps_the_platform_and_refuses_ambiguous_archives() {
    let p = prepared();
    let mut source = p.source;
    source.tag = "v1.0.0".into();
    source.asset_name = "plugin-1.0.0-win-x64.zip".into();
    let make = |id, name: &str| GitHubAsset {
        id,
        name: name.into(),
        size: 2,
        content_type: "application/zip".into(),
        download_url: String::new(),
        digest: None,
        download_count: None,
    };
    let mut release = GitHubRelease {
        id: 2,
        tag: "v1.1.0".into(),
        name: String::new(),
        url: String::new(),
        prerelease: false,
        published_at: None,
        assets: vec![make(2, "plugin-1.1.0-win-arm64.zip"), make(3, "plugin-1.1.0-win-x64.zip")],
    };
    assert_eq!(select_asset(&source, &release).unwrap().id, 3);
    release.assets = vec![make(4, "one.zip"), make(5, "two.zip")];
    assert!(select_asset(&source, &release).is_err());
}

#[test]
fn asset_patterns_replace_the_version_of_the_tag() {
    assert_eq!(asset_pattern("plugin-1.0.0-win-x64.zip", "v1.0.0"), "plugin-{version}-win-x64.zip".chars().collect::<Vec<char>>());
    assert_eq!(asset_pattern("notes.zip", "v1.0.0"), "notes.zip".chars().collect::<Vec<char>>());
}

#[test]
fn staging_requires_the_previewed_selection_and_records_the_version() {
    let p = prepared();
    let request = p.request(vec![Permission::UiDom], BrokerPolicy { read_roots: vec![], network_origins: vec![], executables: vec![] }, true);
    let digest = "c".repeat(64);
    let registration = "d".repeat(64);
    let staged = |record: Option<ManagedPluginRecord>| {
        stage(record, "dev.update-test", &request, &registration, Ok(prepared()), Ok(()), Ok(digest.clone()), "key-2".into())
    };
    let first = staged(None).unwrap();
    assert!(!first.enabled);
    assert_eq!(first.registration.path, "/data/packages/dev.update-test/1.1.0");
    assert_eq!(first.registration.grants, vec![Permission::UiDom]);
    let record = first.record;
    assert_eq!(record.current_version.as_deref(), Some("key-2"));
    assert_eq!(record.history.len(), 1);
    assert_eq!(record.history[0].package_path, "/data/packages/dev.update-test/1.1.0");
    let again = staged(Some(record)).unwrap().record;
    assert_eq!(again.history.len(), 1);

    // A request that leaves out a declared permission is refused.
    let mut wider = prepared();
    wider.manifest.permissions = vec![Permission::UiDom, Permission::UiMainWorld];
    let e = stage(None, "dev.update-test", &request, &registration, Ok(wider), Ok(()), Ok(digest.clone()), "k".into())
        .unwrap_err();
    assert_eq!(e.code, "permission_required");

    let mut untrusted = request.clone();
    untrusted.trusted = false;
    let e = stage(None, "dev.update-test", &untrusted, &registration, Ok(prepared()), Ok(()), Ok(digest.clone()), "k".into())
        .unwrap_err();
    assert_eq!(e.code, "trust_required");
    let mut unmanaged = request.clone();
    unmanaged.managed = None;
    let e = stage(None, "dev.update-test", &unmanaged, &registration, Ok(prepared()), Ok(()), Ok(digest.clone()), "k".into())
        .unwrap_err();
    assert_eq!(e.code, "managed_preview_required");
    let e = stage(None, "dev.update-test", &request, "other", Ok(prepared()), Ok(()), Ok(digest.clone()), "k".into())
        .unwrap_err();
    assert_eq!(e.code, "import_registration_changed");
    let e = stage(
        None,
        "dev.update-test",
        &request,
        &registration,
        Ok(prepared()),
        Err("needs arm64".into()),
        Ok(digest.clone()),
        "k".into(),
    )
    .unwrap_err();
    assert_eq!((e.code.as_str(), e.message.as_str()), ("managed_package_incompatible", "needs arm64"));
    let e = stage(None, "dev.other", &request, &registration, Ok(prepared()), Ok(()), Ok(digest.clone()), "k".into())
        .unwrap_err();
    assert_eq!(e.message, "The selected package changed after preview; inspect it again.");
    let e = stage(None, "dev.update-test", &request, &registration, Ok(prepared()), Ok(()), Ok("e".repeat(64)), "k".into())
        .unwrap_err();
    assert_eq!((e.code.as_str(), e.message.as_str()), ("import_content_changed", "Package content changed during staging."));
}

fn version(key: &str, path: &str) -> ManagedVersion {
    ManagedVersion {
        version_key: key.into(),
        package_path: path.into(),
        content_digest: "c".repeat(64),
        source: source(),
        manifest: manifest(vec![]),
    }
}

fn install_journal(backup: bool, previous_path: Option<&str>) -> InstallJournal {
    InstallJournal {
        schema: 1,
        id: "dev.update-test".into(),
        target: "/data/packages/dev.update-test".into(),
        staged: "/data/packages/.staging/a".into(),
        ready: "/data/packages/.staging/b".into(),
        backup: if backup { Some("/data/packages/.staging/backup-1".into()) } else { None },
        previous_registration: previous_path.map(|p| LocalPluginRegistration {
            path: p.into(),
            grants: vec![],
            broker_policy: BrokerPolicy { read_roots: vec![], network_origins: vec![], executables: vec![] },
        }),
        previous_managed: None,
        previous_enabled: true,
        allowed_registrations: vec!["candidate".into(), "previous".into()],
        committed: false,
    }
}

#[test]
fn installation_rollback_restores_the_backup_only_within_allowed_registrations() {
    let j = install_journal(true, Some("/data/packages/dev.update-test"));
    assert_eq!(
        rollback_plan(&j, "previous", true, true).unwrap(),
        vec![
            RollbackStep::CheckBackup,
            RollbackStep::RemoveTarget,
            RollbackStep::RestoreBackup,
            RollbackStep::RestoreRegistration,
            RollbackStep::CleanStaging,
            RollbackStep::RemoveJournal,
        ]
    );
    // Before the swap the previous stable directory is still in place.
    assert_eq!(
        rollback_plan(&j, "candidate", false, true).unwrap(),
        vec![RollbackStep::CheckPreviousDirectory, RollbackStep::RestoreRegistration, RollbackStep::CleanStaging, RollbackStep::RemoveJournal]
    );
    let first = install_journal(false, None);
    assert_eq!(
        rollback_plan(&first, "candidate", false, true).unwrap(),
        vec![RollbackStep::RemoveTarget, RollbackStep::RestoreRegistration, RollbackStep::CleanStaging, RollbackStep::RemoveJournal]
    );
    let e = rollback_plan(&j, "later", true, true).unwrap_err();
    assert_eq!(e.message, "Concurrent permission or source changes prevent installation restoration");
}

#[test]
fn checkpoints_restore_retire_or_keep_later_changes() {
    let checkpoint = RegistrationCheckpoint {
        schema: 1,
        id: "dev.update-test".into(),
        candidate: "candidate".into(),
        previous: "previous".into(),
        registration: None,
        managed: None,
        enabled: false,
    };
    assert_eq!(checkpoint_action(&checkpoint, "candidate"), CheckpointAction::Restore);
    assert_eq!(checkpoint_action(&checkpoint, "previous"), CheckpointAction::Retire);
    assert_eq!(checkpoint_action(&checkpoint, "later"), CheckpointAction::Defer);
    assert!(check_checkpoint(&checkpoint, Some("dev.update-test")).is_ok());
    assert!(check_checkpoint(&checkpoint, Some("dev.other")).is_err());
    assert!(checkpoint_retirable(&checkpoint, "dev.update-test", "previous").is_ok());
    assert_eq!(
        checkpoint_retirable(&checkpoint, "dev.update-test", "later").unwrap_err().message,
        "A later registration change prevents checkpoint retirement"
    );
    assert!(checkpoint_allowed(false, false).is_ok());
    assert_eq!(
        checkpoint_allowed(true, true).unwrap_err().message,
        "An interrupted installation must be recovered before another update"
    );
    assert_eq!(
        checkpoint_allowed(false, true).unwrap_err().message,
        "An interrupted registration must be recovered before another update"
    );
}

#[test]
fn publishing_needs_a_selection_and_an_unowned_or_own_directory() {
    let record = ManagedPluginRecord { current_version: Some("k1".into()), history: vec![version("k1", "/data/p/1")] };
    let target = "/data/packages/dev.update-test";
    assert!(publish_allowed(false, Some(&record), false, target, None).is_ok());
    assert_eq!(
        publish_allowed(true, Some(&record), false, target, None).unwrap_err().message,
        "An interrupted installation must be recovered before updating this plugin"
    );
    assert_eq!(publish_allowed(false, None, false, target, None).unwrap_err().message, "Managed selection missing");
    let j = install_journal(false, Some(target));
    assert!(publish_allowed(false, Some(&record), true, target, j.previous_registration.as_ref()).is_ok());
    assert_eq!(
        publish_allowed(false, Some(&record), true, target, None).unwrap_err().message,
        "The plugin ID directory is already owned by another source"
    );
    assert!(needs_migration(&record, target));
    let settled = ManagedPluginRecord { current_version: Some("k1".into()), history: vec![version("k1", target)] };
    assert!(!needs_migration(&settled, target));
    let none = ManagedPluginRecord { current_version: None, history: vec![] };
    assert!(!needs_migration(&none, target));
}

#[test]
fn an_update_keeps_only_the_scopes_of_permissions_still_requested() {
    let mut p = prepared();
    p.manifest.permissions = vec![Permission::HostNetwork, Permission::UiDom];
    p.existing_enabled = false;
    if let Some(r) = p.existing_registration.as_mut() {
        r.broker_policy = BrokerPolicy {
            read_roots: vec!["/data".into()],
            network_origins: vec!["https://example.com".into()],
            executables: vec!["/bin/tool".into()],
        };
    }
    let q = update_request(&p, "dev.update-test").unwrap();
    assert_eq!(q.action, PluginControlAction::Update);
    assert_eq!(q.plugin_id, "dev.update-test");
    assert!(q.permission.is_none() && !q.cascade && q.remove_source.is_none());
    let li = q.local_import.unwrap();
    assert_eq!(li.path, p.path);
    assert!(li.trusted);
    assert!(!li.enable);
    assert_eq!(li.grants, vec![Permission::HostNetwork, Permission::UiDom]);
    assert_eq!(li.managed, Some(ManagedOperation::Update));
    assert!(li.broker_policy.read_roots.is_empty());
    assert_eq!(li.broker_policy.network_origins, vec!["https://example.com".to_string()]);
    assert!(li.broker_policy.executables.is_empty());
    p.existing_registration = None;
    assert_eq!(update_request(&p, "dev.update-test").unwrap_err(), "Installed plugin has no grants.");
}

#[test]
fn update_receipts_are_followed_to_their_outcome() {
    assert_eq!(prepared_receipt(ControlStatus::Prepared, &Some("op-1".into()), &None), Ok("op-1".to_string()));
    assert_eq!(
        prepared_receipt(ControlStatus::Prepared, &None, &None),
        Err("The update returned no receipt.".to_string())
    );
    assert_eq!(
        prepared_receipt(ControlStatus::Busy, &None, &None),
        Err("The update could not be prepared.".to_string())
    );
    assert_eq!(prepared_receipt(ControlStatus::Busy, &None, &Some("busy".into())), Err("busy".to_string()));
    assert_eq!(update_submitted(ControlStatus::Completed, &None), Ok(()));
    assert_eq!(update_submitted(ControlStatus::Expired, &None), Err("The update was not submitted.".to_string()));
    assert_eq!(receipt_outcome(ControlStatus::Completed, true, &None, &None), Some(Ok(())));
    assert_eq!(receipt_outcome(ControlStatus::Running, false, &None, &None), None);
    assert_eq!(
        receipt_outcome(ControlStatus::Completed, false, &Some(Completion::Report(None)), &None),
        Some(Err("Plugin update failed.".to_string()))
    );
    assert_eq!(
        receipt_outcome(ControlStatus::Completed, false, &Some(Completion::Error("boom".into())), &Some("x".into())),
        Some(Err("boom".to_string()))
    );
    assert_eq!(
        receipt_outcome(ControlStatus::Expired, false, &None, &None),
        Some(Err("Plugin update status is unavailable.".to_string()))
    );
}

use codlet::managed_plugins::{restore_decision, RegistryEntry, RestoreStep};

fn entry(path: &str, version: Option<&str>, enabled: bool) -> RegistryEntry {
    RegistryEntry {
        local: Some(LocalPluginRegistration {
            path: path.into(),
            grants: vec![Permission::UiDom],
            broker_policy: BrokerPolicy { read_roots: vec![], network_origins: vec![], executables: vec![] },
        }),
        managed: Some(ManagedPluginRecord { current_version: version.map(String::from), history: vec![] }),
        enabled,
    }
}

#[test]
fn registration_is_restored_only_over_this_transactions_own_write() {
    let previous = entry("/p/1.0.0", Some("v1"), true);
    let expected = entry("/p/1.1.0", Some("v2"), false);
    assert_eq!(restore_decision(&expected, &previous, &entry("/p/1.1.0", Some("v2"), false)).unwrap(), RestoreStep::Restore);
    assert_eq!(
        restore_decision(&expected, &previous, &entry("/p/1.0.0", Some("v1"), true)).unwrap(),
        RestoreStep::AlreadyRestored
    );
    let e = restore_decision(&expected, &previous, &entry("/p/1.1.0", Some("v2"), true)).unwrap_err();
    assert_eq!(e.code, "managed_restore_conflict");
    let mut revoked = entry("/p/1.1.0", Some("v2"), false);
    revoked.local.as_mut().unwrap().grants.clear();
    assert!(restore_decision(&expected, &previous, &revoked).is_err());
    let gone = RegistryEntry { local: None, managed: None, enabled: false };
    assert!(restore_decision(&expected, &previous, &gone).is_err());
}

#[test]
fn a_full_history_restarts_with_the_current_version_and_the_new_one() {
    let history: Vec<ManagedVersion> = (0..64).map(|i| version(&format!("k{i}"), &format!("/p/{i}"))).collect();
    let record = ManagedPluginRecord { current_version: Some("k5".into()), history };
    let next = record_with_version(record, version("new", "/p/new"));
    assert_eq!(next.current_version.as_deref(), Some("new"));
    let keys: Vec<&str> = next.history.iter().map(|v| v.version_key.as_str()).collect();
    assert_eq!(keys, vec!["k5", "new"]);
    let orphan = ManagedPluginRecord {
        current_version: None,
        history: (0..64).map(|i| version(&format!("k{i}"), &format!("/p/{i}"))).collect(),
    };
    assert_eq!(record_with_version(orphan, version("new", "/p/new")).history.len(), 1);
}

#[test]
fn rollback_and_loader_checks_of_retained_versions() {
    let record = ManagedPluginRecord { current_version: Some("k1".into()), history: vec![version("k1", "/p/1")] };
    assert_eq!(preview_rollback(None, "k1").unwrap_err().code, "managed_plugin_required");
    assert_eq!(preview_rollback(Some(&record), "k9").unwrap_err().code, "managed_version_not_found");
    assert_eq!(preview_rollback(Some(&record), "k1").unwrap().package_path, "/p/1");
    assert!(check_rollback_package(Some(true)).is_ok());
    assert!(check_rollback_package(None).is_ok());
    assert_eq!(check_rollback_package(Some(false)).unwrap_err().code, "managed_version_missing");
    let unread: Result<InstalledPackage, String> = Err("unreadable".into());
    assert!(validate_current(None, &unread).is_ok());
    let none_current = ManagedPluginRecord { current_version: None, history: vec![version("k1", "/p/1")] };
    assert!(validate_current(Some(&none_current), &unread).is_ok());
    let e = validate_current(Some(&record), &unread).unwrap_err();
    assert_eq!((e.code.as_str(), e.message.as_str()), ("managed_package_invalid", "unreadable"));
    let same = Ok(InstalledPackage { source: source(), manifest: manifest(vec![]), digest: "c".repeat(64) });
    assert!(validate_current(Some(&record), &same).is_ok());
    let mut edited = source();
    edited.tag = "v9".into();
    let changed = Ok(InstalledPackage { source: edited, manifest: manifest(vec![]), digest: "c".repeat(64) });
    assert_eq!(validate_current(Some(&record), &changed).unwrap_err().code, "managed_version_changed");
}

#[test]
fn change_reports_list_every_difference() {
    let old = manifest(vec![Permission::UiDom, Permission::HostFs]);
    let mut next = manifest(vec![Permission::UiDom, Permission::UiMainWorld]);
    next.requires = vec![CapabilityDescriptor::new("ui.adapter", 1, CapabilityScope::Target)];
    next.provides = vec![CapabilityDescriptor::new("panel.api", 1, CapabilityScope::Target)];
    let mut before = old.clone();
    before.provides = vec![CapabilityDescriptor::new("old.api", 1, CapabilityScope::Target)];
    let c = changes(Some(&before), &next);
    assert_eq!(c.permissions_added, vec![Permission::UiMainWorld]);
    assert_eq!(c.permissions_removed, vec![Permission::HostFs]);
    assert_eq!(c.requirements_added.len(), 1);
    assert!(c.requirements_removed.is_empty());
    assert_eq!(c.provides_added.len(), 1);
    assert_eq!(c.provides_removed.len(), 1);
    let fresh = changes(None, &next);
    assert_eq!(fresh.permissions_added, vec![Permission::UiDom, Permission::UiMainWorld]);
    assert!(fresh.permissions_removed.is_empty() && fresh.provides_removed.is_empty());
}

#[test]
fn recovery_journals_must_stay_inside_the_packages_root() {
    let root = "/data/packages";
    assert!(check_journal_paths(&install_journal(true, None), root, PathStyle::Posix).is_ok());
    assert!(check_journal_paths(&install_journal(false, None), root, PathStyle::Posix).is_ok());

    let mut wrong_schema = install_journal(true, None);
    wrong_schema.schema = 2;
    let error = check_journal_paths(&wrong_schema, root, PathStyle::Posix).unwrap_err();
    assert_eq!(error.code, "managed_storage");
    assert_eq!(error.message, "Installation recovery paths are invalid");

    let mut bad_id = install_journal(true, None);
    bad_id.id = "../escape".into();
    assert!(check_journal_paths(&bad_id, root, PathStyle::Posix).is_err());

    let mut other_target = install_journal(true, None);
    other_target.target = "/data/packages/dev.other".into();
    assert!(check_journal_paths(&other_target, root, PathStyle::Posix).is_err());

    let mut nested_ready = install_journal(true, None);
    nested_ready.ready = "/data/packages/.staging/b/c".into();
    assert!(check_journal_paths(&nested_ready, root, PathStyle::Posix).is_err());

    let mut outside_backup = install_journal(true, None);
    outside_backup.backup = Some("/tmp/backup".into());
    assert!(check_journal_paths(&outside_backup, root, PathStyle::Posix).is_err());

    let mut windows = install_journal(false, None);
    windows.target = "C:\\data\\dev.update-test".into();
    windows.ready = "C:\\data\\.staging\\b".into();
    assert!(check_journal_paths(&windows, "C:\\data", PathStyle::Windows).is_ok());
    assert!(check_journal_paths(&windows, "C:\\data", PathStyle::Posix).is_err());
}

fn package(v: &str, operation: ManagedOperation) -> ManagedPreview {
    let mut p = prepared();
    p.operation = operation;
    p.path = format!("/data/packages/dev.update-test/{v}");
    p.content_digest = format!("{v:0>64}");
    p.manifest.version = v.into();
    p.source.tag = format!("v{v}");
    p
}

fn apply(record: Option<ManagedPluginRecord>, p: &ManagedPreview, key: &str, enable: bool) -> codlet::managed_plugins::StagedManaged {
    let request = p.request(
        vec![Permission::UiDom],
        BrokerPolicy { read_roots: vec![], network_origins: vec![], executables: vec![] },
        enable,
    );
    stage(record, "dev.update-test", &request, &p.registration_digest, Ok(p.clone()), Ok(()), Ok(p.content_digest.clone()), key.into())
        .unwrap()
}

#[test]
fn running_managed_updates_and_explicit_rollback_replace_generations_under_one_receipt() {
    let first = package("1", ManagedOperation::Install);
    let installed = apply(None, &first, "k1", true);
    assert_eq!(installed.record.history.len(), 1);
    let second = package("2", ManagedOperation::Update);
    let updated = apply(Some(installed.record), &second, "k2", true);
    assert_eq!(updated.registration.path, second.path);
    assert_eq!(updated.record.current_version.as_deref(), Some("k2"));

    let retained = preview_rollback(Some(&updated.record), "k1").unwrap();
    assert_eq!(retained.package_path, first.path);
    let rollback = package("1", ManagedOperation::Rollback);
    let rolled_back = apply(Some(updated.record), &rollback, "k1", true);
    assert_eq!(rolled_back.record.history.len(), 2);
    assert_eq!(rolled_back.record.current_version.as_deref(), Some("k1"));
    assert_eq!(rolled_back.registration.path, first.path);

    let stopped = apply(Some(rolled_back.record), &second, "k2", false);
    assert!(!stopped.enabled);
    assert_eq!(stopped.registration.path, second.path);
    assert_eq!(stopped.record.history.len(), 2);
    let current = stopped.record.history.iter().find(|v| v.version_key == "k2").unwrap().clone();
    let inspected = Ok(InstalledPackage { source: current.source, manifest: current.manifest, digest: current.content_digest });
    assert!(validate_current(Some(&stopped.record), &inspected).is_ok());
}

#[test]
fn failed_running_update_restores_registration_history_and_previous_snapshot_generation() {
    let first = package("1", ManagedOperation::Install);
    let installed = apply(None, &first, "k1", true);
    let previous = RegistryEntry {
        local: Some(installed.registration.clone()),
        managed: Some(installed.record.clone()),
        enabled: true,
    };
    let broken = package("2", ManagedOperation::Update);
    let staged = apply(Some(installed.record.clone()), &broken, "k2", true);
    let expected = RegistryEntry { local: Some(staged.registration), managed: Some(staged.record), enabled: staged.enabled };
    assert_eq!(restore_decision(&expected, &previous, &expected).unwrap(), RestoreStep::Restore);
    let restored = RegistryEntry {
        local: Some(installed.registration.clone()),
        managed: Some(installed.record.clone()),
        enabled: true,
    };
    assert_eq!(restore_decision(&expected, &previous, &restored).unwrap(), RestoreStep::AlreadyRestored);
    assert_eq!(restored.local.as_ref().unwrap().path, first.path);
    assert_eq!(restored.managed.as_ref().unwrap().current_version.as_deref(), Some("k1"));
    assert!(restored.enabled);
}

#[test]
fn permission_and_dependency_diff_describes_both_halves_without_executing_code() {
    let mut previous = manifest(vec![Permission::UiDom]);
    previous.id = "dev.managed".into();
    previous.version = "1".into();
    previous.renderer_entry = Some("entry.js".into());
    previous.requires = vec![CapabilityDescriptor::new("dev.old", 1, CapabilityScope::Global)];
    let mut next = manifest(vec![Permission::UiDom, Permission::HostProcess]);
    next.id = "dev.managed".into();
    next.version = "2".into();
    next.renderer_entry = Some("entry.js".into());
    next.host_entry = Some("host.js".into());
    next.requires = vec![CapabilityDescriptor::new("dev.new", 1, CapabilityScope::Global)];
    let diff = changes(Some(&previous), &next);
    assert_eq!(diff.permissions_added, vec![Permission::HostProcess]);
    assert_eq!(diff.requirements_added[0].name.as_str(), "dev.new");
    assert_eq!(diff.requirements_removed[0].name.as_str(), "dev.old");
}

#[test]
fn stale_managed_preview_and_concurrent_source_edit_cannot_commit() {
    let first = package("1", ManagedOperation::Install);
    let installed = apply(None, &first, "k1", true);
    let second = package("2", ManagedOperation::Update);
    let request = second.request(
        vec![Permission::UiDom],
        BrokerPolicy { read_roots: vec![], network_origins: vec![], executables: vec![] },
        false,
    );
    let staged = |registration: &str| {
        stage(
            Some(installed.record.clone()),
            "dev.update-test",
            &request,
            registration,
            Ok(second.clone()),
            Ok(()),
            Ok(second.content_digest.clone()),
            "k2".into(),
        )
    };
    assert!(staged(&second.registration_digest).is_ok());
    // A concurrent edit of the managed history (a retagged source) changes
    // the registration digest the preview was made against.
    let retagged = "e".repeat(64);
    assert_eq!(staged(&retagged).unwrap_err().code, "import_registration_changed");
}

#[test]
fn a_retained_version_under_another_directory_cannot_become_current() {
    let first = package("1", ManagedOperation::Install);
    let installed = apply(None, &first, "k1", true);
    let elsewhere = package("2", ManagedOperation::Update);
    let request = elsewhere.request(
        vec![Permission::UiDom],
        BrokerPolicy { read_roots: vec![], network_origins: vec![], executables: vec![] },
        false,
    );
    let e = stage(
        Some(installed.record),
        "dev.update-test",
        &request,
        &elsewhere.registration_digest,
        Ok(elsewhere.clone()),
        Ok(()),
        Ok(elsewhere.content_digest.clone()),
        "k1".into(),
    )
    .unwrap_err();
    assert_eq!((e.code.as_str(), e.message.as_str()), ("registration_conflict", "currentVersion must match the registered directory"));
}

#[test]
fn a_rollback_previews_the_retained_package_from_its_own_directory() {
    let first = package("1", ManagedOperation::Install);
    let installed = apply(None, &first, "k1", true);
    let second = package("2", ManagedOperation::Update);
    let updated = apply(Some(installed.record), &second, "k2", true);
    let registration = updated.registration.clone();
    let v1 = updated.record.history[0].clone();
    let inspected = Ok(InstalledPackage { source: v1.source.clone(), manifest: v1.manifest.clone(), digest: v1.content_digest.clone() });
    let preview = |key: &str, exists: Option<bool>, inspected: &Result<InstalledPackage, PluginControlError>| {
        rollback_preview(Some(&updated.record), key, exists, inspected, Some(&registration), true, true, Ok(()), "r")
    };
    let p = preview("k1", Some(true), &inspected).unwrap();
    assert_eq!(p.operation, ManagedOperation::Rollback);
    assert_eq!(p.path, first.path);
    assert_eq!(p.kind, "codlet.managed-preview");
    assert_eq!(p.current_version.as_ref().unwrap().version_key, "k2");
    assert_eq!(preview("k1", Some(false), &inspected).unwrap_err().code, "managed_version_missing");
    assert_eq!(preview("k9", Some(true), &inspected).unwrap_err().code, "managed_version_not_found");
    let unreadable: Result<InstalledPackage, PluginControlError> =
        Err(PluginControlError::new("managed_package_invalid", "unreadable"));
    let e = preview("k1", None, &unreadable).unwrap_err();
    assert_eq!((e.code.as_str(), e.message.as_str()), ("managed_package_invalid", "unreadable"));
    let none = rollback_preview(None, "k1", Some(true), &inspected, None, false, true, Ok(()), "r");
    assert_eq!(none.unwrap_err().code, "managed_plugin_required");
}
