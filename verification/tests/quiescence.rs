use tigersetup_engine::action::definition::{
    serialize_quiescence, Action, ActionFailurePolicy, ActionKind, ActionOperation, ActionPhase,
    Quiescence,
};
use tigersetup_engine::action::launch::{launch_of, Captured, Context};
use tigersetup_engine::machine::{FileSeen, Machine};
use tigersetup_engine::metadata::{Metadata, OptionValue, Predicate, Scope};
use tigersetup_engine::quiescence::{
    check_extracted, failed_event, install_plan, output, program_of, resume_event, resume_one, started,
    stop_one, uninstall_plan, Ending, Quiesced, Resumption, Settlement, Source, Stopping,
};
use tigersetup_engine::report::documents::{Outcome, TransactionInfo};
use tigersetup_engine::resource::predicate::Options;
use tigersetup_engine::state::installation::{Owned, OwnedAction};
use tigersetup_engine::state::journal::TxnKind;
use tigersetup_engine::Error;

fn action(name: &str, phase: ActionPhase) -> Action {
    Action {
        name: name.into(),
        phase,
        kind: ActionKind::Exe,
        command: "C:\\x\\ctl.exe".into(),
        timeout_seconds: 30,
        ..Default::default()
    }
}

fn entry() -> Quiescence {
    Quiescence {
        name: "helper".into(),
        run_on: vec![ActionOperation::Upgrade, ActionOperation::Uninstall],
        stop: action("helper", ActionPhase::Quiesce),
        resume: Some(action("helper", ActionPhase::Resume)),
        not_running_codes: vec![3],
        when: None,
    }
}

fn ran(code: i32) -> Result<Captured, u64> {
    Ok(Captured {
        exit_code: Some(code),
        timed_out: false,
        stdout: "one\r\ntwo\n".into(),
        stderr: String::new(),
        duration_ms: 12,
    })
}

fn context() -> Context {
    Context {
        install_root: "C:\\App".into(),
        version: "1.0".into(),
        product_id: "V.App".into(),
        scope: Scope::User,
        operation: ActionOperation::Upgrade,
        quiet: true,
    }
}

#[test]
fn entries_are_selected_by_operation_and_option() {
    let mut metadata = Metadata::default();
    let mut gated = entry();
    gated.name = "gated".into();
    gated.when = Some(Predicate { option: "tray".into(), equals: "true".into() });
    metadata.quiescence = vec![entry(), gated];
    let mut options = Options::new();
    options.insert("tray", OptionValue::Bool(false));
    let upgrade = install_plan(&metadata, &options, TxnKind::Upgrade);
    assert_eq!(upgrade.entries.len(), 1);
    assert_eq!(upgrade.skipped, ["gated: disabled by option tray = true"]);
    let install = install_plan(&metadata, &options, TxnKind::Install);
    assert!(install.entries.is_empty());
    assert_eq!(install.skipped, ["helper: not on install", "gated: not on install"]);

    let row = |definition: String| OwnedAction {
        name: "helper".into(),
        phase: "quiesce".into(),
        definition,
        artifact_sha256: None,
        artifact_file: None,
        artifact_size: None,
    };
    let mut owned = Owned::default();
    owned.actions.push(row(serialize_quiescence(&entry())));
    assert_eq!(uninstall_plan(&owned, &options).unwrap().entries, [entry()]);
    owned.actions.push(row("zz".into()));
    assert_eq!(uninstall_plan(&owned, &options).unwrap_err().code, "journal_inconsistent");
}

#[test]
fn a_stop_is_judged_by_its_own_codes_and_the_not_running_ones() {
    let mut e = entry();
    let judged = |e: &Quiescence, code: i32| {
        stop_one(e, "C:\\x\\ctl.exe", ActionOperation::Upgrade, &ran(code))
    };
    let stopped = judged(&e, 0);
    assert_eq!(stopped.ending, Ending::Stopped);
    assert_eq!(stopped.event.message, "helper: stopped (exit code 0, 12 ms)");
    assert_eq!((stopped.info.status, stopped.info.code), ("completed", None));
    let idle = judged(&e, 3);
    assert_eq!(idle.ending, Ending::NotRunning);
    assert_eq!(idle.event.message, "helper: exit code 3 means nothing was running");
    assert_eq!(idle.recorded, "completed");
    let failed = judged(&e, 1);
    assert_eq!(failed.ending, Ending::Failed);
    let failure = failed.failure.unwrap();
    assert_eq!(failure.code, "quiescence_failed");
    assert_eq!(
        failure.message,
        "quiescence helper: action helper (quiesce) exited with code 1"
    );
    e.stop.on_failure = ActionFailurePolicy::Continue;
    let continued = judged(&e, 1);
    assert_eq!(continued.ending, Ending::Continued);
    assert_eq!(continued.info.status, "failed_continued");
    let unlaunched = stop_one(&e, "C:\\x\\ctl.exe", ActionOperation::Upgrade, &Err(4));
    assert_eq!(unlaunched.recorded, "launch_failed");
    assert_eq!(unlaunched.info.duration_ms, 4);
    assert_eq!(
        output(&e, "stdout", "one\r\ntwo\n\nlast\r"),
        ["helper stdout: one", "helper stdout: two", "helper stdout: ", "helper stdout: last\r"]
    );
    let launch = launch_of(&e.stop, "C:\\x\\ctl.exe", &context(), &Machine::empty());
    assert_eq!(
        started(&e, &context(), &launch).message,
        "helper (upgrade): \"C:\\x\\ctl.exe\" [timeout 30 s, on failure continue, not running [3]]"
    );
}

#[test]
fn a_program_comes_from_the_store_the_payload_or_the_machine() {
    let mut m = Machine::empty();
    let mut a = action("helper", ActionPhase::Quiesce);
    a.command = "%INSTALLROOT%\\ctl.exe".into();
    let c = context();
    assert!(matches!(
        program_of(&a, "C:\\S", false, &c, &m).unwrap(),
        Source::Ready(p) if p == "C:\\App\\ctl.exe"
    ));
    a.entry = "actions/ctl.exe".into();
    a.file_name = "ctl.exe".into();
    a.sha256 = "ab".into();
    let at = "C:\\S\\actions\\ab\\ctl.exe";
    assert!(matches!(program_of(&a, "C:\\S", true, &c, &m).unwrap(), Source::Extract(p) if p == at));
    assert_eq!(
        program_of(&a, "C:\\S", false, &c, &m).unwrap_err().code,
        "action_program_missing"
    );
    m.files.push(FileSeen { path: at.into(), sha256: "cd".into(), size: 1, modified: None });
    assert_eq!(
        program_of(&a, "C:\\S", false, &c, &m).unwrap_err().code,
        "action_program_mismatch"
    );
    m.files[0].sha256 = "ab".into();
    assert!(matches!(program_of(&a, "C:\\S", false, &c, &m).unwrap(), Source::Ready(p) if p == at));
    assert!(check_extracted(&a, "ab").is_ok());
    assert_eq!(check_extracted(&a, "cd").unwrap_err().code, "action_program_mismatch");
}

fn outcome(word: &'static str, state: &'static str) -> Outcome {
    let mut o = Outcome::new(word, "ok", 0, "");
    o.transaction = Some(TransactionInfo {
        id: "t".into(),
        kind: "upgrade",
        state,
        from_version: None,
        to_version: None,
        recovery_direction: None,
    });
    o
}

fn one_stopped() -> Quiesced {
    let e = entry();
    let mut q = Quiesced::starting(&vec![entry()]);
    let stop = stop_one(&e, "C:\\x\\ctl.exe", ActionOperation::Upgrade, &ran(0));
    q.quiesce(&e, stop, Ok(Some("C:\\x\\ctl.exe".into()))).unwrap();
    q
}

#[test]
fn what_was_stopped_is_resumed_unless_the_product_is_gone_or_in_pieces() {
    let q = one_stopped();
    assert!(q.stopped_anything());
    assert_eq!(q.owed(&outcome("installed", "committed"), false), Settlement::Resume);
    assert_eq!(q.owed(&outcome("rolled_back", "rolled_back"), true), Settlement::Resume);
    assert_eq!(q.owed(&outcome("installed", "committed"), true), Settlement::Forget);
    assert_eq!(q.owed(&outcome("failed", "rolling_back"), false), Settlement::LeaveStopped);
    assert_eq!(
        Quiesced::none().owed(&outcome("installed", "committed"), false),
        Settlement::Nothing
    );

    let mut o = outcome("installed", "committed");
    let ran = vec![Resumption { result: Ok(77), duration_ms: 5 }];
    q.settle(&mut o, false, ActionOperation::Upgrade, &ran);
    let codes: Vec<&str> = o.findings.iter().map(|f| f.code).collect();
    assert_eq!(codes, ["quiescence_stopped", "quiescence_resumed"]);
    assert_eq!(o.actions.len(), 2);
    assert_eq!((o.actions[1].phase, o.actions[1].status), ("resume", "completed"));

    let mut open = outcome("failed", "rolling_back");
    one_stopped().settle(&mut open, false, ActionOperation::Upgrade, &vec![]);
    assert_eq!(open.findings[1].code, "quiescence_not_resumed");
    let mut gone = outcome("installed", "committed");
    one_stopped().settle(&mut gone, true, ActionOperation::Uninstall, &vec![]);
    assert_eq!(gone.findings.len(), 1);
}

#[test]
fn a_failed_stop_ends_the_run_and_an_idle_application_is_owed_nothing() {
    let e = entry();
    let mut q = one_stopped();
    let idle = stop_one(&e, "p", ActionOperation::Upgrade, &ran(3));
    assert!(idle.event.progress.is_none());
    q.quiesce(&e, idle, Ok(None)).unwrap();
    assert_eq!(q.stopped.len(), 1);
    let failed = stop_one(&e, "p", ActionOperation::Upgrade, &ran(9));
    assert_eq!(q.quiesce(&e, failed, Ok(None)).unwrap_err().code, "quiescence_failed");
    assert_eq!(q.stopped.len(), 1, "what is already stopped is resumed");
    let failure = Resumption { result: Err("no".into()), duration_ms: 1 };
    let (info, found) = resume_one(&q.stopped[0], ActionOperation::Upgrade, &failure).unwrap();
    assert_eq!((info.status, found.code), ("launch_failed", "quiescence_resume_failed"));
    assert_eq!(resume_event(&q.stopped[0], "ctl", &failure).unwrap().message, "helper: no");
    assert!(resume_event(&q.stopped[0], "ctl", &failure).unwrap().progress.is_none());
    q.resume(ActionOperation::Upgrade, &vec![failure]);
    assert!(q.settled && !q.stopped_anything());
}

#[test]
fn a_failed_stop_starts_again_what_was_stopped_before_it() {
    let e = entry();
    let mut silent = entry();
    silent.resume = None;
    let mut q = one_stopped();
    let stop = stop_one(&silent, "p", ActionOperation::Upgrade, &ran(0));
    assert!(matches!(q.stop(&silent, Ok((stop, Ok(None)))), Stopping::GoOn));
    let stop = stop_one(&e, "p", ActionOperation::Upgrade, &ran(0));
    assert!(matches!(q.stop(&e, Ok((stop, Ok(Some("r".into()))))), Stopping::GoOn));
    assert_eq!(q.stopped.len(), 3);
    let failed = stop_one(&e, "p", ActionOperation::Upgrade, &ran(9));
    match q.stop(&e, Ok((failed, Ok(None)))) {
        Stopping::ResumeFirst { starts, failure } => {
            assert_eq!(starts, [0, 2], "in the order they were stopped");
            assert_eq!(failure.code, "quiescence_failed");
        }
        other => panic!("{other:?}"),
    }
    let missing = Error::new("action_program_missing", "gone");
    assert_eq!(failed_event(&e, &missing).message, "helper: gone");
    match q.stop(&e, Err(missing)) {
        Stopping::ResumeFirst { starts, failure } => {
            assert_eq!(starts, q.starts());
            assert_eq!(failure.code, "action_program_missing");
        }
        other => panic!("{other:?}"),
    }
    let none = Resumption { result: Ok(1), duration_ms: 0 };
    assert_eq!(
        resume_event(&q.stopped[1], "", &none).unwrap().code,
        "quiescence_no_resume"
    );
}
