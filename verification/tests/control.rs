use codlet::local_import::LocalImportRequest;
use codlet::macos::host::{parse_i32, spawn_failure};
use codlet::managed_plugins::ManagedOperation;
use codlet::official_update::{
    combined_gate, install_reply, newer_package, package_step, CombinedGate, CombinedRequest, FinishStep, OfficialUpdateOwner,
    OfficialUpdateStatus, OfficialUpdates, PackageIdentity, PhaseOutcome, RestartIntent, RuntimePhase, RuntimeSnapshot,
    TargetChange, TargetSession, UpdateExit,
};
use codlet::plugin_cli::{
    check_offline_evidence, operation_query_ok, outcome, still_pending, submission_refused, ControlReport, ControlStatus,
    PluginCliError, StatusCode,
};
use codlet::plugin_control::{
    recovery_request, PluginControlAction, PluginControlError, PluginControlOutcome, PluginControlReport,
    PluginControlRequest, SourceRemovalRequest,
};
use codlet::plugin_commands::{parse_plugin_trust_options, CommandError};
use codlet::plugin_permissions::BrokerPolicy;
use codlet::plugins::Permission;

#[test]
fn offline_requires_positive_evidence_and_allows_a_known_other_registry() {
    let missing = ControlReport::failure(ControlStatus::NotRunning, "fixture");
    assert!(check_offline_evidence("scope-a", &missing, Some(StatusCode::NotRunning)).is_ok());
    for status in [
        StatusCode::Running,
        StatusCode::Busy,
        StatusCode::Timeout,
        StatusCode::UntrustedServer,
        StatusCode::CommunicationError,
    ] {
        assert!(check_offline_evidence("scope-a", &missing, Some(status)).is_err());
    }
    let mut discovered = ControlReport::failure(ControlStatus::Identified, "fixture");
    discovered.registry_scope = Some("scope-b".into());
    assert!(check_offline_evidence("scope-a", &discovered, None).is_ok());
    discovered.registry_scope = Some("scope-a".into());
    assert!(check_offline_evidence("scope-a", &discovered, None).is_err());
    for status in [
        ControlStatus::Busy,
        ControlStatus::Timeout,
        ControlStatus::UntrustedServer,
        ControlStatus::CommunicationError,
    ] {
        discovered.status = status;
        assert!(check_offline_evidence("scope-a", &discovered, None).is_err());
    }
}

#[test]
fn ordinary_close_and_cancel_are_not_update_restarts() {
    let mut state = RestartIntent::default();
    assert!(!state.pending);
    state.registered(0);
    assert!(state.pending);
    let now = 5_000;
    assert!(!state.observe("installing", now));
    assert!(state.pending);
    assert!(!state.observe("ready", now));
    assert!(!state.observe("ready", now));
    assert!(state.observe("ready", now));
    assert!(!state.pending);
    state.registered(now);
    assert!(state.pending);
}

#[test]
fn restart_samples_count_only_after_the_settle_delay() {
    let mut state = RestartIntent::default();
    assert!(!state.observe("ready", 10_000));
    state.registered(1_000);
    assert!(!state.observe("ready", 2_500));
    assert!(!state.observe("idle", 3_000));
    assert_eq!(state.settled_samples, 0);
    assert!(!state.observe("ready", 3_001));
    assert!(!state.observe("installing", 3_500));
    assert_eq!(state.settled_samples, 0);
    assert!(!state.observe("ready", 4_000));
    assert!(!state.observe("idle", 4_001));
    assert!(state.observe("ready", 4_002));
    assert!(!state.observe("ready", 4_003));
}

#[test]
fn spawn_diagnostics_do_not_include_arbitrary_error_text() {
    let error = std::io::Error::other("secret-token /private/config.json");
    let failure = spawn_failure(
        "spawn_failed",
        &error.to_string(),
        error.raw_os_error(),
        &format!("{:?}", error.kind()),
    );
    assert!(!failure.message.contains("secret-token"));
    assert!(!failure.message.contains("/private"));
    let error = std::io::Error::other("owner_stage=parent_identity_rejected");
    assert!(spawn_failure("spawn_failed", &error.to_string(), error.raw_os_error(), &format!("{:?}", error.kind()))
        .message
        .contains("parent_identity_rejected"));
}

#[test]
fn spawn_diagnostics_name_stage_kind_and_errno_exactly() {
    let failure = spawn_failure("spawn_failed", "owner_stage=plan_write;errno=Some(-13)", None, "Other");
    assert_eq!(failure.code, "spawn_failed");
    assert_eq!(failure.message, "Native process startup failed: owner_stage=plan_write;io_kind=Other;errno=Some(-13)");
    let failure = spawn_failure("spawn_failed", "owner_stage=unknown;errno=Some(7)", Some(2), "NotFound");
    assert_eq!(failure.message, "Native process startup failed: owner_stage=prepare;io_kind=NotFound;errno=Some(2)");
    let failure = spawn_failure("spawn_failed", "plain text", None, "Other");
    assert_eq!(failure.message, "Native process startup failed: owner_stage=prepare;io_kind=Other;errno=None");
}

#[test]
fn signed_decimal_parsing_matches_i32_bounds() {
    let p = |s: &str| parse_i32(&s.chars().collect::<Vec<char>>());
    assert_eq!(p("42"), Some(42));
    assert_eq!(p("+7"), Some(7));
    assert_eq!(p("-2147483648"), Some(i32::MIN));
    assert_eq!(p("2147483647"), Some(i32::MAX));
    assert_eq!(p("2147483648"), None);
    assert_eq!(p("-"), None);
    assert_eq!(p(""), None);
    assert_eq!(p("1a"), None);
    assert_eq!(p("007"), Some(7));
}

fn request(action: PluginControlAction) -> PluginControlRequest {
    PluginControlRequest {
        action,
        plugin_id: "dev.plugin".into(),
        permission: None,
        cascade: false,
        local_import: None,
        remove_source: None,
    }
}

fn selection(managed: Option<ManagedOperation>, trusted: bool, enable: bool) -> Box<LocalImportRequest> {
    Box::new(LocalImportRequest {
        path: "/plugins/dev.plugin".into(),
        content_digest: "a".repeat(64),
        registration_digest: "b".repeat(64),
        trusted,
        grants: vec![],
        broker_policy: BrokerPolicy { read_roots: vec![], network_origins: vec![], executables: vec![] },
        enable,
        managed,
    })
}

fn code(r: Result<(), PluginControlError>) -> String {
    r.unwrap_err().code
}

#[test]
fn control_requests_must_fit_their_action() {
    assert!(request(PluginControlAction::Enable).validate().is_ok());
    let mut r = request(PluginControlAction::Disable);
    r.remove_source = Some(Box::new(SourceRemovalRequest { path: "/plugins/x".into() }));
    assert_eq!(code(r.validate()), "invalid_source_removal");
    let mut r = request(PluginControlAction::Reload);
    r.cascade = true;
    assert_eq!(code(r.validate()), "invalid_cascade");
    let mut r = request(PluginControlAction::Disable);
    r.cascade = true;
    assert!(r.validate().is_ok());
    let mut r = request(PluginControlAction::Enable);
    r.plugin_id = "Bad Id".into();
    assert_eq!(code(r.validate()), "invalid_plugin_id");
    assert_eq!(code(request(PluginControlAction::Revoke).validate()), "invalid_permission");
    let mut r = request(PluginControlAction::Revoke);
    r.permission = Some(Permission::HostFs);
    assert!(r.validate().is_ok());
    assert_eq!(code(request(PluginControlAction::Import).validate()), "invalid_import");
    let mut r = request(PluginControlAction::Import);
    r.local_import = Some(selection(None, false, true));
    assert_eq!(code(r.validate()), "trust_required");
    let mut r = request(PluginControlAction::Update);
    r.local_import = Some(selection(Some(ManagedOperation::Rollback), true, true));
    assert_eq!(code(r.validate()), "invalid_managed_operation");
    r.local_import = Some(selection(Some(ManagedOperation::Update), true, true));
    assert!(r.validate().is_ok());
    assert!(r.activation_requested());
    r.local_import = Some(selection(Some(ManagedOperation::Update), true, false));
    assert!(!r.activation_requested());
    assert!(request(PluginControlAction::Import).activation_requested());
    assert!(!request(PluginControlAction::Reload).activation_requested());
}

#[test]
fn recovery_allows_only_disabling_revoking_and_keeping_sources() {
    assert!(recovery_request(&request(PluginControlAction::Disable)));
    assert!(recovery_request(&request(PluginControlAction::Revoke)));
    assert!(recovery_request(&request(PluginControlAction::Remove)));
    let mut r = request(PluginControlAction::Remove);
    r.remove_source = Some(Box::new(SourceRemovalRequest { path: "/plugins/x".into() }));
    assert!(!recovery_request(&r));
    assert!(!recovery_request(&request(PluginControlAction::Enable)));
    assert_eq!(PluginControlAction::Rollback.as_str(), "rollback");
}

#[test]
fn reports_succeed_only_when_applied_or_unchanged() {
    let mut report = PluginControlReport {
        action: PluginControlAction::Enable,
        plugin_id: "dev.plugin".into(),
        outcome: PluginControlOutcome::Applied,
        desired_enabled: true,
        affected_plugin_ids: vec![],
        generations: vec![],
        target_failures: vec![],
        message: None,
    };
    assert!(report.is_success());
    report.outcome = PluginControlOutcome::Unchanged;
    assert!(report.is_success());
    report.outcome = PluginControlOutcome::RolledBack;
    assert!(!report.is_success());
    report.outcome = PluginControlOutcome::Degraded;
    assert!(!report.is_success());
}

#[test]
fn receipts_are_resubmitted_only_when_refused() {
    assert!(submission_refused(ControlStatus::Busy));
    assert!(submission_refused(ControlStatus::NotRunning));
    assert!(!submission_refused(ControlStatus::Queued));
    assert!(!submission_refused(ControlStatus::Completed));
    assert!(still_pending(ControlStatus::Running));
    assert!(!still_pending(ControlStatus::Completed));
    assert!(operation_query_ok(ControlStatus::Prepared, false));
    assert!(operation_query_ok(ControlStatus::Completed, true));
    assert!(!operation_query_ok(ControlStatus::Completed, false));
    assert_eq!(outcome(true, &Ok(()), false), "offline_saved");
    assert_eq!(outcome(false, &Err(PluginCliError::Uncertain("t".into())), false), "uncertain");
    assert_eq!(outcome(false, &Err(PluginCliError::NotSubmitted("t".into())), false), "not_submitted");
    assert_eq!(outcome(false, &Err(PluginCliError::ReloadOffline), false), "failed");
    assert_eq!(outcome(false, &Ok(()), true), "completed");
    assert_eq!(outcome(false, &Ok(()), false), "operation_status");
    let e = PluginCliError::Request(PluginControlError::new("invalid_cascade", "m"));
    assert_eq!(e.code(), "invalid_cascade");
    assert_eq!(PluginCliError::ReloadOffline.code(), "host_required");
}

fn package(full: &str, v: (u16, u16, u16, u16)) -> PackageIdentity {
    PackageIdentity {
        family_name: "OpenAI.Codex".into(),
        full_name: full.into(),
        major: v.0,
        minor: v.1,
        build: v.2,
        revision: v.3,
    }
}

#[test]
fn only_a_different_higher_package_of_the_family_is_newer() {
    let old = package("a", (1, 2, 3, 4));
    assert!(newer_package(&old, &package("b", (1, 2, 3, 5))));
    assert!(newer_package(&old, &package("b", (2, 0, 0, 0))));
    assert!(!newer_package(&old, &package("a", (2, 0, 0, 0))));
    assert!(!newer_package(&old, &package("b", (1, 2, 3, 4))));
    assert!(!newer_package(&old, &package("b", (1, 2, 2, 9))));
    let mut other = package("b", (9, 0, 0, 0));
    other.family_name = "Other".into();
    assert!(!newer_package(&old, &other));
    let mut status = OfficialUpdateStatus {
        available: true,
        restart_preserved: true,
        phase: "ready".into(),
        is_update_ready: true,
        combined_phase: "installing".into(),
        error: None,
    };
    assert!(status.busy());
    status.combined_phase = "idle".into();
    assert!(!status.busy());
}

fn session(target: &str, session: &str) -> TargetSession {
    TargetSession { target_id: target.into(), session_id: session.into() }
}

fn update_status(combined_phase: &str, restart_preserved: bool) -> OfficialUpdateStatus {
    OfficialUpdateStatus {
        available: true,
        restart_preserved,
        phase: "ready".into(),
        is_update_ready: true,
        combined_phase: combined_phase.into(),
        error: None,
    }
}

#[test]
fn update_owner_follows_sessions_and_ignores_stale_session_ends() {
    let mut owner = OfficialUpdateOwner::new();
    owner.seed_sessions(&vec![session("t1", "s1"), session("t2", "s2"), session("t1", "s3")]);
    owner.observe(&TargetChange::SessionEnded { target_id: "t1".into(), session_id: "s1".into() });
    owner.observe(&TargetChange::NavigatedAway(session("t2", "s2")));
    owner.observe(&TargetChange::Attached(session("t4", "s4")));
    owner.observe(&TargetChange::SessionEnded { target_id: "t4".into(), session_id: "s4".into() });
    owner.observe(&TargetChange::NavigatedAway(session("missing", "s9")));
    let recorded: Vec<(String, String)> =
        owner.sessions().iter().map(|s| (s.target_id.clone(), s.session_id.clone())).collect();
    // t1 still holds s3: the end of its replaced session s1 did not remove it.
    assert_eq!(recorded, vec![("t1".to_string(), "s3".to_string())]);
    owner.observe(&TargetChange::SessionEnded { target_id: "t1".into(), session_id: "s3".into() });
    assert!(owner.sessions().is_empty());
    assert!(!owner.is_rehearsal());
}

#[test]
fn rehearsal_requires_an_idle_update_and_preserved_restart() {
    let mut owner = OfficialUpdateOwner::new();
    assert_eq!(owner.rehearse(&update_status("installing", true), 10), Err("An update is already running".to_string()));
    assert_eq!(
        owner.rehearse(&update_status("idle", false), 10),
        Err("Native restart preservation is not ready".to_string())
    );
    assert!(!owner.is_rehearsal());
    assert!(!owner.waiting_for_restart(false, 10));
    assert_eq!(owner.rehearse(&update_status("idle", true), 10), Ok(()));
    assert!(owner.is_rehearsal());
    assert!(owner.waiting_for_restart(false, 20));
}

#[test]
fn a_restart_registered_by_the_bridge_is_awaited() {
    let mut owner = OfficialUpdateOwner::new();
    assert!(!owner.waiting_for_restart(false, 0));
    assert!(owner.waiting_for_restart(true, 5));
    assert!(owner.waiting_for_restart(false, 6));
}

fn args(v: &[&str]) -> Vec<String> {
    v.iter().map(|s| s.to_string()).collect()
}

#[test]
fn trust_options_are_parsed_once_each_and_refuse_unknown_flags() {
    let o = parse_plugin_trust_options(&args(&[
        "--trust",
        "--grant",
        "ui.dom",
        "--grant",
        "host.fs",
        "--read-root",
        "/data",
        "--network-origin",
        "https://example.com",
        "--enable",
        "--json",
        "--write-root",
        "/w",
        "--watch-root",
        "/watch",
        "--cwd-root",
        "/cwd",
        "--env-key",
        "HOME",
        "--shortcut",
        "Ctrl+K",
        "--executable",
        "/bin/tool",
    ]))
    .unwrap();
    assert!(o.trusted && o.enable && o.json);
    assert_eq!(o.grants, vec![Permission::UiDom, Permission::HostFs]);
    assert_eq!(o.read_roots, vec!["/data"]);
    assert_eq!(o.network_origins, vec!["https://example.com"]);
    assert_eq!(o.write_roots, vec!["/w"]);
    assert_eq!(o.watch_roots, vec!["/watch"]);
    assert_eq!(o.cwd_roots, vec!["/cwd"]);
    assert_eq!(o.env_keys, vec!["HOME"]);
    assert_eq!(o.shortcuts, vec!["Ctrl+K"]);
    assert_eq!(o.executables, vec!["/bin/tool"]);
    assert!(parse_plugin_trust_options(&args(&[])).unwrap().grants.is_empty());

    for bad in [&["--trust", "--trust"][..], &["--grant"], &["--grant", "ui.dom", "--grant", "ui.dom"], &["--read-root"], &["--force"]] {
        let e = parse_plugin_trust_options(&args(bad)).unwrap_err();
        assert!(matches!(e, CommandError::Usage));
        assert!(e.describe().starts_with("unrecognized plugin arguments"));
    }
    match parse_plugin_trust_options(&args(&["--grant", "ui.everything"])).unwrap_err() {
        CommandError::UnknownPermission(p) => assert_eq!(p, "ui.everything"),
        other => panic!("unexpected {other:?}"),
    }
    assert_eq!(
        CommandError::UnknownPermission("x".into()).describe(),
        "unrecognized plugin permission x"
    );
    assert_eq!(
        CommandError::Control(PluginCliError::Uncertain("op-1".into())).describe(),
        "operation op-1 is not confirmed complete; do not repeat the mutation, use `codlet plugin operation op-1`"
    );
    assert_eq!(
        CommandError::Control(PluginCliError::Request(PluginControlError::new("busy", "try later"))).describe(),
        "busy: try later"
    );
    assert_eq!(Permission::from_name("runtime.manage"), Some(Permission::RuntimeManage));
    assert_eq!(Permission::from_name("runtime"), None);
}

fn runtime(candidate: Option<&str>, phase: RuntimePhase) -> RuntimeSnapshot {
    RuntimeSnapshot { candidate: candidate.map(String::from), install_available: true, phase, error: None }
}

#[test]
fn combined_update_requires_both_updates_ready_and_the_same_candidate() {
    let mut updates = OfficialUpdates::new();
    assert_eq!(updates.status.combined_phase, "idle");
    assert_eq!(
        updates.request_combined(&runtime(Some("c1"), RuntimePhase::Available), "c1"),
        Err("Both updates must be ready for this Codlet launcher before a combined update can start.".to_string())
    );
    updates.status = update_status("idle", true);
    assert_eq!(
        updates.request_combined(&runtime(Some("c2"), RuntimePhase::Available), "c1"),
        Err("The update changed. Cancel and review it again before installing.".to_string())
    );
    assert!(updates.candidate_id.is_none());
    assert_eq!(
        updates.request_combined(&runtime(Some("c1"), RuntimePhase::Available), "c1"),
        Ok(CombinedRequest::Start { download: true })
    );
    assert_eq!(updates.candidate_id.as_deref(), Some("c1"));
    updates.start_downloading();
    assert_eq!(updates.status.combined_phase, "downloading");
    assert_eq!(
        updates.request_combined(&runtime(Some("other"), RuntimePhase::Failed), "c1"),
        Ok(CombinedRequest::Running)
    );
    updates.fail("stopped");
    assert_eq!(updates.status.combined_phase, "failed");
    assert_eq!(updates.status.error.as_deref(), Some("stopped"));
    assert!(updates.candidate_id.is_none());
    let mut downloaded = OfficialUpdates::new();
    downloaded.status = update_status("failed", true);
    assert_eq!(
        downloaded.request_combined(&runtime(Some("c1"), RuntimePhase::Downloaded), "c1"),
        Ok(CombinedRequest::Start { download: false })
    );
}

#[test]
fn combined_gate_follows_the_runtime_update() {
    let status = update_status("downloading", true);
    let rt = runtime(Some("c1"), RuntimePhase::Downloaded);
    assert_eq!(combined_gate(&update_status("idle", true), None, None, false), Ok(CombinedGate::Idle));
    assert_eq!(combined_gate(&status, None, Some("c1"), false), Err("Runtime update service ended".to_string()));
    assert_eq!(
        combined_gate(&status, Some(&rt), Some("c2"), false),
        Err("The Codlet update candidate changed; review the updates again.".to_string())
    );
    assert_eq!(combined_gate(&status, Some(&rt), Some("c1"), true), Ok(CombinedGate::Hold));
    assert_eq!(combined_gate(&status, Some(&rt), Some("c1"), false), Ok(CombinedGate::RequestInstall));
    let mut not_ready = update_status("downloading", true);
    not_ready.phase = "installing".into();
    assert_eq!(
        combined_gate(&not_ready, Some(&rt), Some("c1"), false),
        Err("The official update is no longer ready; the current client was retained.".to_string())
    );
    let failed = runtime(Some("c1"), RuntimePhase::Failed);
    assert_eq!(combined_gate(&status, Some(&failed), Some("c1"), false), Err("Codlet update preparation failed".to_string()));
    let mut broken = runtime(Some("c1"), RuntimePhase::Other);
    broken.error = Some("disk full".into());
    assert_eq!(combined_gate(&status, Some(&broken), Some("c1"), false), Err("disk full".to_string()));
    let preparing = update_status("preparing", true);
    assert_eq!(combined_gate(&preparing, Some(&rt), Some("c1"), true), Ok(CombinedGate::Proceed));
}

#[test]
fn the_install_call_is_made_once_per_held_request() {
    let mut owner = OfficialUpdateOwner::new();
    assert!(owner.awaits_install_request());
    assert!(owner.start_handoff("r1".into()));
    assert!(owner.handoff_running());
    assert!(!owner.start_handoff("r2".into()));
    assert_eq!(owner.handoff_finished(Ok(()), true, 1000), Ok("r1".to_string()));
    assert!(!owner.handoff_running());
    assert!(!owner.awaits_install_request());
    assert_eq!(install_reply(Some(true)), Ok(()));
    assert_eq!(install_reply(None), Ok(()));
    assert_eq!(install_reply(Some(false)), Err("The official installer did not accept the update.".to_string()));
    assert_eq!(owner.install_overdue(121_000), Ok(()));
    assert_eq!(
        owner.install_overdue(121_001),
        Err("The official installer did not begin installation; the current client was retained.".to_string())
    );
    assert!(owner.must_abort(false));
    assert_eq!(owner.abort(), Some("r1".to_string()));
    assert_eq!(owner.install_overdue(500_000), Ok(()));
    assert!(!owner.must_abort(false));
    assert!(owner.must_abort(true));
    assert!(owner.awaits_install_request());
}

#[test]
fn a_failed_or_unpreserved_handoff_fails_the_update() {
    let mut owner = OfficialUpdateOwner::new();
    assert!(owner.start_handoff("r1".into()));
    assert_eq!(owner.handoff_finished(Err("gate failed".into()), true, 5), Err("gate failed".to_string()));
    assert!(owner.start_handoff("r2".into()) == false);
    assert_eq!(owner.abort(), Some("r1".to_string()));
    assert!(owner.start_handoff("r2".into()));
    assert_eq!(
        owner.handoff_finished(Ok(()), false, 5),
        Err("Restart preservation is unavailable; the current client was retained.".to_string())
    );
    assert_eq!(owner.install_overdue(1_000_000), Ok(()));
}

#[test]
fn a_settled_installer_cancels_a_held_combined_install() {
    let mut owner = OfficialUpdateOwner::new();
    assert!(owner.waiting_for_restart(true, 0));
    assert!(owner.start_handoff("r1".into()));
    assert_eq!(owner.observe_phase("ready", 3000), PhaseOutcome::Unconfirmed);
    assert_eq!(owner.observe_phase("idle", 3001), PhaseOutcome::Unconfirmed);
    assert_eq!(owner.observe_phase("ready", 3002), PhaseOutcome::Cancelled("r1".to_string()));
    assert!(owner.awaits_install_request());
    assert!(!owner.waiting_for_restart(false, 3003));
    let mut plain = OfficialUpdateOwner::new();
    plain.waiting_for_restart(true, 0);
    plain.observe_phase("ready", 3000);
    plain.observe_phase("ready", 3001);
    assert_eq!(plain.observe_phase("ready", 3002), PhaseOutcome::Confirmed);
}

#[test]
fn closing_the_client_decides_by_rehearsal_and_pending_restart() {
    let mut owner = OfficialUpdateOwner::new();
    assert_eq!(owner.finish(false, 0), FinishStep::Ordinary);
    assert!(!owner.is_completed());
    assert_eq!(owner.finish(true, 0), FinishStep::AwaitPackage);
    let mut rehearsal = OfficialUpdateOwner::new();
    rehearsal.rehearse(&update_status("idle", true), 1).unwrap();
    assert_eq!(rehearsal.finish(false, 2), FinishStep::Restart);
    assert!(rehearsal.is_completed());
    let mut combined = OfficialUpdateOwner::new();
    combined.start_handoff("r9".into());
    assert_eq!(combined.take_request(), Some("r9".to_string()));
    assert_eq!(combined.complete(true), UpdateExit::Combined);
    assert!(combined.is_completed());
    assert_eq!(OfficialUpdateOwner::new().complete(false), UpdateExit::Restart);
}

#[test]
fn a_newer_package_is_confirmed_on_its_second_sighting() {
    let installed = package("a", (1, 0, 0, 0));
    let newer = package("b", (1, 0, 0, 1));
    let (stable, confirmed) = package_step(&installed, Some(&newer), true, None);
    assert_eq!(stable.as_deref(), Some("b"));
    assert!(!confirmed);
    let (stable, confirmed) = package_step(&installed, Some(&newer), true, stable);
    assert_eq!(stable.as_deref(), Some("b"));
    assert!(confirmed);
    assert_eq!(package_step(&installed, Some(&newer), false, Some("b".into())), (None, false));
    assert_eq!(package_step(&installed, None, true, Some("b".into())), (None, false));
    assert_eq!(package_step(&installed, Some(&installed), true, Some("a".into())), (None, false));
}
