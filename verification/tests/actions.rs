use tigersetup_engine::action::definition::{
    deserialize, deserialize_quiescence, serialize, serialize_quiescence, Action,
    ActionFailurePolicy, ActionKind, ActionOperation, ActionPhase, Quiescence,
};
use tigersetup_engine::action::encoding;
use tigersetup_engine::action::launch::{
    continues, describe_launch, expand, failure_message, judge, launch_of, staged_program,
    stored_program, tail, Captured, Context, Status, OUTPUT_TAIL_BYTES,
};
use tigersetup_engine::action::plan::{install_plan, uninstall_plan};
use tigersetup_engine::machine::Machine;
use tigersetup_engine::metadata::{Metadata, OptionValue, Predicate, Scope};
use tigersetup_engine::resource::predicate::Options;
use tigersetup_engine::state::installation::{Owned, OwnedAction};
use tigersetup_engine::state::journal::TxnKind;

fn default_operations(phase: ActionPhase) -> Vec<ActionOperation> {
    match phase {
        ActionPhase::PreInstall | ActionPhase::PostInstall => vec![
            ActionOperation::Install,
            ActionOperation::Upgrade,
            ActionOperation::Reinstall,
        ],
        _ => vec![ActionOperation::Uninstall],
    }
}

fn action(name: &str, phase: ActionPhase, kind: ActionKind) -> Action {
    Action {
        name: name.into(),
        phase,
        run_on: default_operations(phase),
        kind,
        command: "C:\\x\\tool.exe".into(),
        ..Default::default()
    }
}

fn context() -> Context {
    Context {
        install_root: "C:\\Apps\\Sample".into(),
        version: "1.2.3".into(),
        product_id: "Vendor.Sample".into(),
        scope: Scope::User,
        operation: ActionOperation::Install,
        quiet: true,
    }
}

fn machine() -> Machine {
    let mut m = Machine::empty();
    m.known_folders.push(("TEMP".into(), "C:\\Users\\u\\Temp".into()));
    m.environment.push(("SystemRoot".into(), "C:\\Windows".into()));
    m
}

#[test]
fn definitions_round_trip_through_the_journal_encoding() {
    let mut declared = action("build-cache", ActionPhase::PostInstall, ActionKind::Cmd);
    declared.arguments = vec!["a b".into(), "ü".into()];
    declared.reboot_codes = vec![3010];
    declared.when = Some(Predicate { option: "x".into(), equals: "true".into() });
    let text = serialize(&declared);
    assert!(text.bytes().all(|b| b.is_ascii_hexdigit()));
    assert_eq!(deserialize(&text).unwrap(), declared);
    assert_eq!(deserialize("zz").unwrap_err().code, "journal_inconsistent");
}

#[test]
fn quiescence_round_trips_with_and_without_a_resume() {
    let mut entry = Quiescence {
        name: "helper".into(),
        run_on: vec![ActionOperation::Upgrade, ActionOperation::Uninstall],
        stop: action("helper", ActionPhase::Quiesce, ActionKind::Exe),
        resume: None,
        not_running_codes: vec![3, -1],
        when: None,
    };
    assert_eq!(deserialize_quiescence(&serialize_quiescence(&entry)).unwrap(), entry);
    entry.resume = Some(action("helper", ActionPhase::Resume, ActionKind::Powershell));
    entry.when = Some(Predicate { option: "tray".into(), equals: "true".into() });
    assert_eq!(deserialize_quiescence(&serialize_quiescence(&entry)).unwrap(), entry);
    assert_eq!(
        deserialize_quiescence(&serialize(&entry.stop)).unwrap_err().code,
        "journal_inconsistent"
    );
}

#[test]
fn bytes_that_are_no_text_are_refused() {
    assert_eq!(encoding::read("61c3bc").ok(), Some("aü".to_string()));
    assert!(encoding::read("ff").is_err());
    assert!(encoding::read("6").is_err());
    assert!(encoding::read("6g").is_err());
    assert_eq!(encoding::write("aü"), "61c3bc");
}

#[test]
fn a_plan_follows_the_phase_the_operation_and_the_option() {
    let mut metadata = Metadata::default();
    let mut gated = action("preflight", ActionPhase::PreInstall, ActionKind::Exe);
    gated.when = Some(Predicate { option: "cache".into(), equals: "true".into() });
    let mut repair_only = action("rebuild", ActionPhase::PostInstall, ActionKind::Exe);
    repair_only.run_on = vec![ActionOperation::Repair];
    metadata.actions = vec![
        gated,
        action("build-cache", ActionPhase::PostInstall, ActionKind::Exe),
        repair_only,
        action("clear-cache", ActionPhase::PreUninstall, ActionKind::Exe),
        action("farewell", ActionPhase::PostUninstall, ActionKind::Exe),
    ];
    let mut options = Options::new();
    options.insert("cache", OptionValue::Bool(false));
    let names =
        |actions: &[Action]| -> Vec<String> { actions.iter().map(|a| a.name.clone()).collect() };

    let plan = install_plan(&metadata, &options, TxnKind::Install);
    assert!(plan.before.is_empty(), "gated off");
    assert_eq!(names(&plan.after), vec!["build-cache"]);
    assert_eq!(names(&plan.store), vec!["clear-cache", "farewell"]);
    assert_eq!(
        plan.skipped,
        vec![("preflight".to_string(), "option"), ("rebuild".to_string(), "operation")]
    );

    options.insert("cache", OptionValue::Bool(true));
    let plan = install_plan(&metadata, &options, TxnKind::Upgrade);
    assert_eq!(names(&plan.before), vec!["preflight"]);
    assert_eq!(names(&plan.after), vec!["build-cache"]);

    let plan = install_plan(&metadata, &options, TxnKind::Repair);
    assert!(plan.before.is_empty(), "repair is opt-in");
    assert_eq!(names(&plan.after), vec!["rebuild"]);

    let owned = Owned {
        actions: metadata.actions[3..]
            .iter()
            .map(|a| OwnedAction {
                name: a.name.clone(),
                phase: a.phase.as_str().to_string(),
                definition: serialize(a),
                artifact_sha256: None,
                artifact_file: None,
                artifact_size: None,
            })
            .collect(),
        ..Owned::default()
    };
    let plan = uninstall_plan(&owned, &options).unwrap();
    assert_eq!(names(&plan.before), vec!["clear-cache"]);
    assert_eq!(names(&plan.after), vec!["farewell"]);

    let mut damaged = owned;
    damaged.actions[1].definition = "zz".into();
    assert_eq!(
        uninstall_plan(&damaged, &options).unwrap_err().code,
        "journal_inconsistent"
    );
}

#[test]
fn placeholders_expand_and_a_lone_percent_survives() {
    let context = context();
    let m = machine();
    assert_eq!(
        expand("%INSTALLROOT%\\bin\\tool.exe", &context, &m),
        "C:\\Apps\\Sample\\bin\\tool.exe"
    );
    assert_eq!(expand("v%VERSION%", &context, &m), "v1.2.3");
    assert_eq!(expand("%installroot%", &context, &m), "C:\\Apps\\Sample");
    assert_eq!(expand("100%", &context, &m), "100%");
    assert_eq!(expand("50% of %VERSION%", &context, &m), "50% of 1.2.3");
    assert_eq!(expand("%NOT_A_FOLDER_XYZ%", &context, &m), "%NOT_A_FOLDER_XYZ%");
    assert_eq!(expand("a %% b", &context, &m), "a %% b");
    assert_eq!(expand("%TEMP%\\x", &context, &m), "C:\\Users\\u\\Temp\\x");
}

#[test]
fn each_kind_resolves_to_its_interpreter_and_the_context_travels() {
    let context = context();
    let m = machine();
    let mut exe = action("tool", ActionPhase::PostInstall, ActionKind::Exe);
    exe.arguments = vec!["--root".into(), "%INSTALLROOT%".into(), "100%".into()];
    exe.timeout_seconds = 7;
    let launch = launch_of(&exe, "C:\\Apps\\Sample\\bin\\tool.exe", &context, &m);
    assert_eq!(launch.program, "C:\\Apps\\Sample\\bin\\tool.exe");
    assert_eq!(launch.arguments, vec!["--root", "C:\\Apps\\Sample", "100%"]);
    assert_eq!(launch.working_directory, Some("C:\\Apps\\Sample\\bin".to_string()));
    assert_eq!(launch.timeout_seconds, 7);
    assert!(launch.raw_tail.is_none());
    let env: std::collections::BTreeMap<String, String> =
        launch.environment.into_iter().collect();
    assert_eq!(env["TIGERSETUP_INSTALL_ROOT"], "C:\\Apps\\Sample");
    assert_eq!(env["TIGERSETUP_VERSION"], "1.2.3");
    assert_eq!(env["TIGERSETUP_PRODUCT_ID"], "Vendor.Sample");
    assert_eq!(env["TIGERSETUP_SCOPE"], "user");
    assert_eq!(env["TIGERSETUP_OPERATION"], "install");
    assert_eq!(env["TIGERSETUP_PHASE"], "post-install");
    assert_eq!(env["TIGERSETUP_ACTION"], "tool");
    assert_eq!(env["TIGERSETUP_QUIET"], "1");

    let mut script = action("configure", ActionPhase::PostInstall, ActionKind::Powershell);
    script.arguments = vec!["-Root".into(), "%INSTALLROOT%".into()];
    script.working_directory = "%INSTALLROOT%\\data".into();
    let launch = launch_of(&script, "C:\\stage\\configure.ps1", &context, &m);
    assert!(launch.program.ends_with("WindowsPowerShell\\v1.0\\powershell.exe"));
    assert_eq!(
        launch.arguments,
        vec![
            "-NoProfile",
            "-NonInteractive",
            "-ExecutionPolicy",
            "Bypass",
            "-File",
            "C:\\stage\\configure.ps1",
            "-Root",
            "C:\\Apps\\Sample"
        ]
    );
    assert_eq!(launch.working_directory, Some("C:\\Apps\\Sample\\data".to_string()));

    let mut batch = action("configure", ActionPhase::PostInstall, ActionKind::Cmd);
    batch.arguments = vec!["a b".into()];
    let launch = launch_of(&batch, "C:\\st age\\configure.cmd", &context, &m);
    assert!(launch.program.ends_with("cmd.exe"));
    assert_eq!(launch.arguments, vec!["/d", "/s", "/c"]);
    assert_eq!(
        launch.raw_tail.as_deref(),
        Some("\"\"C:\\st age\\configure.cmd\" \"a b\"\"")
    );
    assert!(describe_launch(&launch).ends_with("\"a b\"\""));
}

fn captured(code: Option<i32>) -> Captured {
    Captured {
        exit_code: code,
        timed_out: code.is_none(),
        stdout: String::new(),
        stderr: String::new(),
        duration_ms: 0,
    }
}

#[test]
fn exit_codes_are_judged_by_the_declared_codes() {
    let mut declared = action("tool", ActionPhase::PostInstall, ActionKind::Exe);
    declared.success_codes = vec![0, 2];
    declared.reboot_codes = vec![3010];
    assert_eq!(judge(&declared, &captured(Some(0))).status, Status::Completed);
    assert_eq!(judge(&declared, &captured(Some(2))).status, Status::Completed);
    let reboot = judge(&declared, &captured(Some(3010)));
    assert_eq!(reboot.status, Status::Completed);
    assert!(reboot.reboot_required);
    let failed = judge(&declared, &captured(Some(1)));
    assert_eq!(failed.status, Status::Failed);
    assert_eq!(failed.exit_code, Some(1));
    assert_eq!(judge(&declared, &captured(None)).status, Status::TimedOut);
    assert!(!continues(&declared, &failed));
    declared.on_failure = ActionFailurePolicy::Continue;
    assert!(continues(&declared, &failed));
    assert_eq!(Status::Failed.failure_code(), "action_failed");
    assert!(failure_message(&declared, &failed).contains("exited with code 1"));
}

#[test]
fn stored_paths_are_content_addressed_and_tails_are_bounded() {
    let mut packaged = action("clear", ActionPhase::PreUninstall, ActionKind::Cmd);
    packaged.command = String::new();
    packaged.entry = "actions/clear.cmd".into();
    packaged.file_name = "clear.cmd".into();
    packaged.sha256 = "ab".repeat(32);
    assert_eq!(
        stored_program("C:\\State", &packaged),
        format!("C:\\State\\actions\\{}\\clear.cmd", "ab".repeat(32))
    );
    assert_eq!(
        staged_program("C:\\State\\txn-1", &packaged),
        "C:\\State\\txn-1\\actions\\clear.cmd"
    );
    let long = "é".repeat(OUTPUT_TAIL_BYTES);
    let tailed = tail(&long);
    assert!(tailed.len() <= OUTPUT_TAIL_BYTES);
    assert!(tailed.chars().all(|c| c == 'é'));
    assert_eq!(tail("short"), "short");
    assert_eq!(tail(&"x".repeat(5000)).len(), OUTPUT_TAIL_BYTES);
}
