use codlet::macos::application::{is_bundle, select_discovered, Application, ApplicationMetadata};
use codlet::macos::host::{check_spawn_plan_size, startup_pid, OwnerReply, MAX_SPAWN_PLAN_BYTES};
use codlet::macos::runtime::{doctor_runtime, DoctorRuntime};
use codlet::plugin_cli::ControlStatus;
use codlet::macos::runtime::{check_spawn_plan, launched_identity, owner_exit_code, running_refusal, scrubbed_variable};

fn metadata() -> ApplicationMetadata {
    ApplicationMetadata {
        identifier: Some("com.openai.codex".into()),
        executable_name: Some("Codex".into()),
        version: Some("26.908.70816".into()),
        build: Some("1234".into()),
        minimum_macos: Some("13.0".into()),
    }
}

const HEADER: [u8; 8] = [0xcf, 0xfa, 0xed, 0xfe, 0x0c, 0, 0, 1];

fn inspect(bundle: &str, m: &ApplicationMetadata, executable: &str, header: &[u8]) -> Result<Application, String> {
    Application::from_inspection(
        bundle.into(),
        b"<plist/>",
        m,
        Ok(executable.into()),
        Ok(header.to_vec()),
        Ok(()),
    )
}

#[test]
fn only_the_official_arm64_bundle_is_accepted() {
    let app = inspect("/Applications/Codex.app", &metadata(), "/Applications/Codex.app/Contents/MacOS/Codex", &HEADER).unwrap();
    assert_eq!(app.identifier, "com.openai.codex");
    assert_eq!(app.version, "26.908.70816");
    assert_eq!(app.executable, "/Applications/Codex.app/Contents/MacOS/Codex");

    assert!(is_bundle("/Applications/Codex.app"));
    assert!(!is_bundle("/Applications/.app"));
    assert!(!is_bundle("/Applications/Codex"));
    let e = inspect("/Applications/Codex", &metadata(), "/Applications/Codex/Contents/MacOS/Codex", &HEADER).unwrap_err();
    assert_eq!(e, "Expected an application bundle");

    let mut other = metadata();
    other.identifier = Some("com.example.other".into());
    let e = inspect("/Applications/Codex.app", &other, "/Applications/Codex.app/Contents/MacOS/Codex", &HEADER).unwrap_err();
    assert_eq!(e, "This bundle is not the official Codex desktop application");

    let mut missing = metadata();
    missing.build = None;
    let e = inspect("/Applications/Codex.app", &missing, "/Applications/Codex.app/Contents/MacOS/Codex", &HEADER).unwrap_err();
    assert_eq!(e, "Missing application field CFBundleVersion");
    let mut long = metadata();
    long.version = Some("9".repeat(512));
    let e = inspect("/Applications/Codex.app", &long, "/Applications/Codex.app/Contents/MacOS/Codex", &HEADER).unwrap_err();
    assert_eq!(e, "Missing application field CFBundleShortVersionString");

    for name in ["../Codex", "..", ".", "a\\b"] {
        let mut bad = metadata();
        bad.executable_name = Some(name.into());
        let e = inspect("/Applications/Codex.app", &bad, "/Applications/Codex.app/Contents/MacOS/Codex", &HEADER).unwrap_err();
        assert_eq!(e, "Invalid application executable name");
    }
    let e = inspect("/Applications/Codex.app", &metadata(), "/tmp/Codex", &HEADER).unwrap_err();
    assert_eq!(e, "Application executable redirected outside its bundle");
    let e = inspect("/Applications/Codex.app", &metadata(), "/Applications/Codex.app/Contents/MacOS/x/Codex", &HEADER)
        .unwrap_err();
    assert_eq!(e, "Application executable redirected outside its bundle");
    let mut intel = HEADER;
    intel[4] = 0x07;
    let e = inspect("/Applications/Codex.app", &metadata(), "/Applications/Codex.app/Contents/MacOS/Codex", &intel).unwrap_err();
    assert_eq!(e, "This target requires the official ARM64 Mach-O executable");
    let e = Application::from_inspection(
        "/Applications/Codex.app".into(),
        &vec![b'x'; 1024 * 1024 + 1],
        &metadata(),
        Ok("/Applications/Codex.app/Contents/MacOS/Codex".into()),
        Ok(HEADER.to_vec()),
        Ok(()),
    )
    .unwrap_err();
    assert_eq!(e, "Application metadata exceeds its limit");
    let e = Application::from_inspection(
        "/Applications/Codex.app".into(),
        b"<plist/>",
        &metadata(),
        Ok("/Applications/Codex.app/Contents/MacOS/Codex".into()),
        Ok(HEADER.to_vec()),
        Err("codesign: invalid signature".into()),
    )
    .unwrap_err();
    assert_eq!(e, "codesign: invalid signature");
}

#[test]
fn a_changed_bundle_is_refused_and_processes_are_matched_by_path_and_name() {
    let app = inspect("/Applications/Codex.app", &metadata(), "/Applications/Codex.app/Contents/MacOS/Codex", &HEADER).unwrap();
    let same = inspect("/Applications/Codex.app", &metadata(), "/Applications/Codex.app/Contents/MacOS/Codex", &HEADER).unwrap();
    assert!(app.revalidated(&same).is_ok());
    let changed = Application::from_inspection(
        "/Applications/Codex.app".into(),
        b"<plist version=\"2\"/>",
        &metadata(),
        Ok("/Applications/Codex.app/Contents/MacOS/Codex".into()),
        Ok(HEADER.to_vec()),
        Ok(()),
    )
    .unwrap();
    assert_eq!(
        app.revalidated(&changed).unwrap_err(),
        "The application changed during launch preparation; retry with its current version"
    );
    assert!(app.owns_executable("/Applications/Codex.app/Contents/Frameworks/Helper"));
    assert!(!app.owns_executable("/Applications/Codex.app/ContentsX/Helper"));
    assert!(app.may_be_another_copy("/Users/a/Applications/ChatGPT.app/Contents/MacOS/ChatGPT"));
    assert!(app.may_be_another_copy("/opt/Codex Helper"));
    assert!(!app.may_be_another_copy("/usr/bin/zsh"));
}

#[test]
fn discovery_uses_the_single_official_application() {
    let app = || inspect("/Applications/Codex.app", &metadata(), "/Applications/Codex.app/Contents/MacOS/Codex", &HEADER);
    let other = inspect("/Users/a/Applications/Codex.app", &metadata(), "/Users/a/Applications/Codex.app/Contents/MacOS/Codex", &HEADER);
    let chosen = select_discovered(vec![
        ("/Applications/ChatGPT.app".into(), Err("not official".into())),
        ("/Applications/Codex.app".into(), app()),
        ("/Applications/Codex.app".into(), app()),
    ])
    .unwrap();
    assert_eq!(chosen.bundle, "/Applications/Codex.app");
    assert_eq!(
        select_discovered(vec![("/a".into(), app()), ("/b".into(), other)]).unwrap_err(),
        "Multiple official applications found; select one with --app"
    );
    assert_eq!(
        select_discovered(vec![("/x.app".into(), Err("one".into())), ("/y.app".into(), Err("two".into()))]).unwrap_err(),
        "No verified official Codex application found; select its .app with --app. /x.app: one; /y.app: two"
    );
    assert_eq!(
        select_discovered(vec![]).unwrap_err(),
        "No verified official Codex application found; select its .app with --app. "
    );
}

#[test]
fn launches_scrub_code_loading_variables_and_refuse_running_clients() {
    for key in ["DYLD_INSERT_LIBRARIES", "dyld_library_path", "NODE_OPTIONS", "Node_Path", "ELECTRON_RUN_AS_NODE", "electron_run_as_node"] {
        assert!(scrubbed_variable(key), "{key}");
    }
    for key in ["PATH", "HOME", "ELECTRON_RUN_AS_NODE_X", "MY_NODE_OPTIONS"] {
        assert!(!scrubbed_variable(key), "{key}");
    }
    assert!(running_refusal(&vec![]).is_ok());
    assert_eq!(
        running_refusal(&vec![41, 7]).unwrap_err(),
        "Close the existing official client before starting Codlet; running process IDs: [41, 7]"
    );
    assert!(launched_identity("/A.app/Contents/MacOS/Codex", "/A.app/Contents/MacOS/Codex", 501, 501).is_ok());
    assert_eq!(
        launched_identity("/B/Codex", "/A.app/Contents/MacOS/Codex", 501, 501).unwrap_err(),
        "Launched application identity does not match the selected bundle"
    );
    assert!(launched_identity("/A", "/A", 0, 501).is_err());
}

#[test]
fn the_process_owner_vets_its_plan_and_reports_signals_above_128() {
    assert!(check_spawn_plan("/usr/local/bin/node", "/tmp", 3).is_ok());
    assert_eq!(check_spawn_plan("node", "/tmp", 3).unwrap_err(), "Invalid Core process plan");
    assert!(check_spawn_plan("/bin/node", "tmp", 3).is_err());
    assert!(check_spawn_plan("/bin/node", "/tmp", 129).is_err());
    assert!(check_spawn_plan("/bin/node", "/tmp", 128).is_ok());
    assert_eq!(owner_exit_code(Some(3), None), 3);
    assert_eq!(owner_exit_code(None, Some(9)), 137);
    assert_eq!(owner_exit_code(None, None), 128);
}

use codlet::macos::folder_dialog::{dialog_output, prompt_for, DialogOutput, FolderPicker, FolderSelection, SelectionStatus};

#[test]
fn folder_dialog_prompts_follow_the_locale() {
    assert_eq!(prompt_for(None), Ok("Choose plugin folder"));
    assert_eq!(prompt_for(Some("en")), Ok("Choose plugin folder"));
    assert_eq!(prompt_for(Some("zh")), Ok("选择插件文件夹"));
    assert_eq!(prompt_for(Some("fr")), Err("Unknown folder dialog locale".to_string()));
}

#[test]
fn dialog_output_is_bounded_and_trimmed() {
    assert_eq!(dialog_output(true, "/Users/me/plugin/\n"), Ok(DialogOutput::Chosen("/Users/me/plugin/".into())));
    assert_eq!(dialog_output(true, "\r\n"), Ok(DialogOutput::Cancelled));
    assert_eq!(dialog_output(true, ""), Ok(DialogOutput::Cancelled));
    assert_eq!(dialog_output(false, "denied\n"), Ok(DialogOutput::Failed("denied".into())));
    assert!(dialog_output(true, &"a".repeat(16384)).is_ok());
    assert_eq!(
        dialog_output(true, &"a".repeat(16385)),
        Err("Folder selection exceeded its output limit".to_string())
    );
}

#[test]
fn one_folder_dialog_at_a_time_with_fresh_selection_ids() {
    let mut picker = FolderPicker::new();
    assert_eq!(picker.check_selection("folder-1"), Err("This folder selection is no longer available".to_string()));
    assert_eq!(picker.begin(None), Ok("Choose plugin folder"));
    let first = picker.started().unwrap();
    assert_eq!(first, FolderSelection { selection_id: "folder-1".into(), status: SelectionStatus::Selecting });
    assert!(picker.dialog_open());
    assert_eq!(picker.begin(Some("en")), Err("A folder selection is already open".to_string()));
    assert_eq!(picker.begin(Some("xx")), Err("Unknown folder dialog locale".to_string()));
    assert!(picker.check_selection("folder-1").is_ok());
    let done = picker.finished(SelectionStatus::Selected("/plugins/a".into()));
    assert_eq!(done.selection_id, "folder-1");
    assert_eq!(picker.current(), Some(done));
    assert!(!picker.dialog_open());
    let second = picker.started().unwrap();
    assert_eq!(second.selection_id, "folder-2");
    assert!(picker.check_selection("folder-1").is_err());
}

#[test]
fn host_start_plans_are_bounded_and_replies_checked() {
    assert_eq!(MAX_SPAWN_PLAN_BYTES, 1024 * 1024);
    assert!(check_spawn_plan_size(0).is_ok());
    assert!(check_spawn_plan_size(MAX_SPAWN_PLAN_BYTES).is_ok());
    assert_eq!(
        check_spawn_plan_size(MAX_SPAWN_PLAN_BYTES + 1).unwrap_err(),
        "Host environment exceeded its startup limit"
    );

    assert_eq!(startup_pid(OwnerReply::Started { pid: 4242 }), Ok(4242));
    assert_eq!(startup_pid(OwnerReply::Started { pid: 0 }).unwrap_err(), "Invalid Host owner startup reply");
    assert_eq!(
        startup_pid(OwnerReply::Exited { code: 0, process_group_reaped: true }).unwrap_err(),
        "Invalid Host owner startup reply"
    );
    assert_eq!(startup_pid(OwnerReply::Failed { message: "no such file".into() }).unwrap_err(), "no such file");
}

#[test]
fn doctor_reports_what_the_runtime_answered() {
    assert_eq!(doctor_runtime(None, ControlStatus::Inspected, true, true, None), DoctorRuntime::NotProbed);
    assert_eq!(
        doctor_runtime(Some(Err("bad path".into())), ControlStatus::Inspected, true, true, None),
        DoctorRuntime::Unavailable { code: "runtime_scope".into(), message: "bad path".into() }
    );
    assert_eq!(
        doctor_runtime(Some(Ok(())), ControlStatus::Inspected, true, true, None),
        DoctorRuntime::ExecutionInspected
    );
    assert_eq!(doctor_runtime(Some(Ok(())), ControlStatus::Inspected, true, false, None), DoctorRuntime::Inspected);
    assert_eq!(doctor_runtime(Some(Ok(())), ControlStatus::NotRunning, false, false, None), DoctorRuntime::NotRunning);
    assert_eq!(
        doctor_runtime(Some(Ok(())), ControlStatus::Inspected, false, false, None),
        DoctorRuntime::Unavailable {
            code: "runtime_unavailable".into(),
            message: "Runtime identity was not verified".into()
        }
    );
    assert_eq!(
        doctor_runtime(Some(Ok(())), ControlStatus::Busy, false, false, Some("busy".into())),
        DoctorRuntime::Unavailable { code: "runtime_unavailable".into(), message: "busy".into() }
    );
}
