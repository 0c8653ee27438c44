use tigersetup_engine::action::plan::ActionPlan;
use tigersetup_engine::dependency::{Failure, PhaseOutcome};
use tigersetup_engine::elevation::Rights;
use tigersetup_engine::engine::entry::{enter, let_in};
use tigersetup_engine::engine::inspect::inspect;
use tigersetup_engine::engine::package::{
    check_platform, require_payload, resolve_roots, staging_directory, state_db_path,
    temp_directory, Package, Roots, RunOptions,
};
use tigersetup_engine::engine::prepare::{
    lay_groundwork, reconcile_run, report_skipped_actions, show_options, uninstall_run, Installing,
    Uninstalling,
};
use tigersetup_engine::engine::run::{
    already_installed, complete, failed, finish, firewall_store, install, intent, not_installed,
    origin_aside_path, remove_state_directory, repair, repair_kind, report_install,
    report_uninstall, stem_of, stopped_at_dependency, uninstall, with_installation, Ended, Fault,
    InstallWorld, Intended, OwnStep, OwnWorld, Recovery, Step,
};
use tigersetup_engine::engine::told::{install_started, run_finished, run_started};
use tigersetup_engine::engine::verify::{verify, State};
use tigersetup_engine::machine::{Data, FileSeen, KeyPath, Machine, ValueSeen};
use tigersetup_engine::metadata::{File, Metadata, OptionValue, Scope};
use tigersetup_engine::plan::files::{Payload, PayloadEntry};
use tigersetup_engine::report::documents::{Outcome, RecoveryInfo};
use tigersetup_engine::report::Finding;
use tigersetup_engine::resource::predicate::Options;
use tigersetup_engine::state::installation::{
    InstallationRow, Owned, OwnedAction, OwnedDirectory, OwnedFile, OwnedPathEntry,
    OwnedRegistryValue, OwnedShortcut,
};
use tigersetup_engine::state::journal::{TransactionRow, TxnKind, TxnState};
use tigersetup_engine::Error;

fn package() -> Package {
    let mut metadata = Metadata::default();
    metadata.package.id = "V.App".into();
    metadata.package.name = "App".into();
    metadata.package.version = "2.0".into();
    metadata.install.scopes = vec![Scope::User];
    metadata.install.user_root = "%LOCALAPPDATA%\\Programs\\App".into();
    metadata.files =
        vec![File { path: "a.txt".into(), size: 1, entry: "a.txt".into(), when: None }];
    Package {
        metadata,
        metadata_sha256: "m".into(),
        path: "C:\\Downloads\\App-Setup.exe".into(),
        uninstaller_scope: None,
        license_sha256: Some("lic".into()),
        minimum_build: 19041,
        tigersetup_version: "1".into(),
        engine_sha256: "e".into(),
        engine_block_sha256: "b".into(),
    }
}

fn machine() -> Machine {
    let mut m = Machine::empty();
    for (name, path) in [
        ("LOCALAPPDATA", "C:\\U\\Local"),
        ("PROGRAMS", "C:\\U\\Programs"),
        ("DESKTOP", "C:\\U\\Desktop"),
        ("TEMP", "C:\\U\\Temp"),
        ("SYSTEMROOT", "C:\\Windows"),
    ] {
        m.known_folders.push((name.into(), path.into()));
    }
    m
}

fn roots() -> Roots {
    resolve_roots(&package(), &RunOptions::default(), &machine()).unwrap()
}

fn installed(version: &str) -> InstallationRow {
    InstallationRow {
        id: "i".into(),
        product_id: "V.App".into(),
        version: version.into(),
        scope: "user".into(),
        install_root: "C:\\U\\Local\\Programs\\App".into(),
        engine_version: "1".into(),
        committed_at: "T".into(),
        registration_key: Some(
            "HKCU\\Software\\Microsoft\\Windows\\CurrentVersion\\Uninstall\\V.App".into(),
        ),
        accepted_license_sha256: Some("old".into()),
    }
}

fn transaction(state: TxnState) -> TransactionRow {
    TransactionRow {
        id: "t".into(),
        kind: TxnKind::Upgrade,
        from_version: Some("1.0".into()),
        to_version: Some("2.0".into()),
        package_id: "V.App".into(),
        package_version: "2.0".into(),
        metadata_sha256: "m".into(),
        scope: "user".into(),
        install_root: "C:\\U\\Local\\Programs\\App".into(),
        state,
        started_at: "T".into(),
        finished_at: None,
        registration_key: None,
        accepted_license_sha256: None,
    }
}

#[test]
fn roots_resolve_from_the_scope_and_the_known_folders() {
    let r = roots();
    assert_eq!(r.state_dir, "C:\\U\\Local\\TigerSetup\\V.App");
    assert_eq!(r.state_db, "C:\\U\\Local\\TigerSetup\\V.App\\state.db");
    assert_eq!(state_db_path(&package(), Scope::User, &machine()).unwrap(), r.state_db);
    assert_eq!(package().metadata_sha256(), "m");
    assert_eq!(r.uninstaller, "C:\\U\\Local\\TigerSetup\\V.App\\uninstall.exe");
    assert_eq!(r.install_root, "C:\\U\\Local\\Programs\\App");
    let machine_scope = RunOptions { scope: Scope::Machine, ..Default::default() };
    assert_eq!(
        resolve_roots(&package(), &machine_scope, &machine()).unwrap_err().code,
        "scope_unsupported"
    );
    let relative = RunOptions { install_root: Some("App".into()), ..Default::default() };
    assert_eq!(
        resolve_roots(&package(), &relative, &machine()).unwrap_err().code,
        "install_root_invalid"
    );
    assert_eq!(
        resolve_roots(&package(), &RunOptions::default(), &Machine::empty()).unwrap_err().code,
        "known_folder_unavailable"
    );
    assert_eq!(check_platform(&package(), Some(19040)).unwrap_err().exit_code(), 8);
    assert!(check_platform(&package(), None).is_ok());
    let mut copy = package();
    copy.uninstaller_scope = Some(Scope::User);
    assert_eq!(require_payload(&copy).unwrap_err().code, "payload_unavailable");
}

#[test]
fn a_run_enters_on_a_machine_that_is_new_enough_with_rights_to_write() {
    let o = RunOptions::default();
    let m = machine();
    let r = enter(&package(), &o, Some(99_999), &m).unwrap();
    assert_eq!(r.state_dir, roots().state_dir);
    let unresolved = Machine::empty();
    assert_eq!(enter(&package(), &o, Some(1), &unresolved).unwrap_err().exit_code(), 8);
    assert_eq!(
        enter(&package(), &o, None, &unresolved).unwrap_err().code,
        "known_folder_unavailable"
    );
    let none = Rights { elevated: false, writes_state: false, writes_files: false };
    assert_eq!(
        let_in("install", &o, &r, none, "2026-01-02T03:04:05.006Z", &m).unwrap(),
        "C:\\U\\Local\\TigerSetup\\V.App\\logs\\20260102T030405006Z-install.log"
    );
    let told = RunOptions { log_path: Some("D:\\x.log".into()), ..Default::default() };
    assert_eq!(let_in("install", &told, &r, none, "T", &m).unwrap(), "D:\\x.log");
    let wide = RunOptions { scope: Scope::Machine, ..Default::default() };
    assert!(let_in("install", &wide, &r, none, "T", &m)
        .unwrap_err()
        .message
        .contains(&r.install_root));
}

#[test]
fn an_unelevated_run_stages_in_its_own_temp_folder() {
    let m = machine();
    assert_eq!(staging_directory(false, "u", &m), temp_directory(&m));
    assert_eq!(temp_directory(&m), "C:\\U\\Temp\\TigerSetup");
    assert_eq!(staging_directory(true, "u", &m), "C:\\Windows\\Temp\\TigerSetup-u");
}

fn world() -> InstallWorld {
    InstallWorld {
        refused: None,
        state_exists: true,
        recovered: None,
        phase: None,
        recorded: None,
        migrated: None,
        existing: None,
        ran: None,
    }
}

#[test]
fn an_install_clears_the_way_before_it_changes_anything() {
    let p = package();
    let o = RunOptions::default();
    let mut w = world();
    assert_eq!(install(&p, &o, &w), Step::ResolveScope);
    w.refused = Some(Ok(false));
    assert_eq!(install(&p, &o, &w), Step::Recover);
    w.recovered = Some(Ok(Recovery::none()));
    assert_eq!(install(&p, &o, &w), Step::RunDependencies);
    w.phase = Some(PhaseOutcome::default());
    assert_eq!(install(&p, &o, &w), Step::RecordEvents);
    w.recorded = Some(Err(Error::new("database_error", "")));
    assert_eq!(install(&p, &o, &w), Step::Fail(Fault::Record));
    w.recorded = Some(Ok(()));
    assert_eq!(install(&p, &o, &w), Step::Migrate);
    w.migrated = Some(Ok(None));
    assert_eq!(install(&p, &o, &w), Step::OpenDatabase);
    w.existing = Some(None);
    assert_eq!(install(&p, &o, &w), Step::Reconcile(TxnKind::Install));
    w.existing = Some(Some(installed("1.0")));
    assert_eq!(install(&p, &o, &w), Step::Reconcile(TxnKind::Upgrade));
    w.existing = Some(Some(installed("2.0")));
    assert_eq!(install(&p, &o, &w), Step::Report, "nothing to change");
    w.existing = Some(None);
    w.ran = Some(Ok(Outcome::new("installed", "ok", 0, "")));
    assert_eq!(install(&p, &o, &w), Step::Report);
    w.ran = Some(Err(Error::new("x", "")));
    assert_eq!(install(&p, &o, &w), Step::Fail(Fault::Run));

    w.phase = Some(PhaseOutcome {
        failure: Some(failure()),
        ..Default::default()
    });
    assert_eq!(install(&p, &o, &w), Step::StopAtDependency);
    w.recorded = None;
    assert_eq!(install(&p, &o, &w), Step::RecordEvents, "recorded before the run stops");
    w.state_exists = false;
    assert_eq!(install(&p, &o, &w), Step::StopAtDependency, "no state is created for it");
    w.phase = Some(PhaseOutcome::default());
    w.existing = None;
    assert_eq!(install(&p, &o, &w), Step::RecordEvents, "in the database that is created now");
    let mut unknown = RunOptions::default();
    unknown.options.insert("nope", OptionValue::Bool(true));
    assert_eq!(install(&p, &unknown, &w), Step::Fail(Fault::Options));
    w.refused = Some(Ok(true));
    assert_eq!(install(&p, &o, &w), Step::Refuse);
    let mut copy = package();
    copy.uninstaller_scope = Some(Scope::User);
    assert_eq!(install(&copy, &o, &w), Step::Fail(Fault::Payload));
}

fn failure() -> Failure {
    Failure {
        code: "dependency_missing",
        dependency: "V.Dep".into(),
        display_name: "Dep".into(),
        reason: None,
        message: "gone".into(),
    }
}

#[test]
fn a_same_version_run_is_a_no_op_unless_something_changes() {
    let p = package();
    let same = Some(installed("2.0"));
    assert_eq!(intent(&same, &p, &RunOptions::default()), Intended::Nothing);
    let accepted =
        RunOptions { license_accepted: true, quiet: false, ..Default::default() };
    assert_eq!(intent(&same, &p, &accepted), Intended::Transaction(TxnKind::Reinstall));
    let quiet = RunOptions { license_accepted: true, quiet: true, ..Default::default() };
    assert_eq!(intent(&same, &p, &quiet), Intended::Nothing, "a quiet run accepts nothing");
    let mut set = RunOptions::default();
    set.options.insert("x", OptionValue::Bool(true));
    assert_eq!(intent(&same, &p, &set), Intended::Transaction(TxnKind::Reinstall));
    assert_eq!(repair_kind(&same, &p).unwrap(), TxnKind::Repair);
    assert_eq!(repair_kind(&Some(installed("1.0")), &p).unwrap(), TxnKind::Upgrade);
    assert_eq!(repair_kind(&None, &p).unwrap_err().code, "not_installed");
}

#[test]
fn repair_and_uninstall_recover_before_they_transact() {
    let p = package();
    let mut w = OwnWorld { recovered: None, existing: None, ran: None };
    assert_eq!(repair(&p, &w), OwnStep::Recover);
    w.recovered = Some(Ok(Recovery::none()));
    assert_eq!(uninstall(&w), OwnStep::Read);
    w.existing = Some(None);
    assert_eq!(uninstall(&w), OwnStep::NotInstalled);
    w.existing = Some(Some(installed("1.0")));
    assert_eq!(uninstall(&w), OwnStep::Transact(TxnKind::Uninstall));
    assert_eq!(repair(&p, &w), OwnStep::Transact(TxnKind::Upgrade));
    w.ran = Some(Err(Error::new("x", "")));
    assert_eq!(uninstall(&w), OwnStep::FailedRun);
    w.recovered = Some(Err(Error::new("recovery_incomplete", "")));
    assert_eq!(uninstall(&w), OwnStep::FailedRecovery);
}

#[test]
fn every_end_of_a_transaction_has_its_outcome() {
    let p = package();
    let t = transaction(TxnState::Committed);
    let done = finish(Ended::Committed, "en-US", &p, &t, vec![], vec![], true);
    assert_eq!((done.outcome, done.code.as_str(), done.exit_code), ("installed", "ok", 3010));
    assert!(done.message.contains("App"), "{}", done.message);
    assert_eq!(done.transaction.as_ref().unwrap().state, "committed");
    let back = finish(
        Ended::RolledBack(Error::new("io_error", "disk")),
        "en-US",
        &p,
        &t,
        vec![Finding::at("x", "C:\\x")],
        vec![],
        true,
    );
    assert_eq!((back.outcome, back.code.as_str(), back.exit_code), ("rolled_back", "io_error", 1));
    assert_eq!(back.findings.len(), 1);
    let cancelled = finish(
        Ended::RolledBack(Error::new("cancelled", "")),
        "en-US",
        &p,
        &t,
        vec![],
        vec![],
        false,
    );
    assert_eq!((cancelled.outcome, cancelled.exit_code), ("cancelled", 5));
    let stuck = finish(
        Ended::Stuck(Error::new("io_error", "one"), Error::new("rollback_failed", "two")),
        "en-US",
        &p,
        &t,
        vec![],
        vec![],
        false,
    );
    assert_eq!((stuck.outcome, stuck.code.as_str(), stuck.exit_code), ("failed", "rollback_failed", 7));
    assert!(stuck.message.contains("one; two"), "{}", stuck.message);
    let upgraded = complete(
        done,
        vec![],
        vec![Finding::at("file_missing", "C:\\y")],
        "en-US",
        &p,
        TxnKind::Upgrade,
        "1.0",
        "C:\\App",
    );
    assert!(upgraded.message.contains("1.0"), "{}", upgraded.message);
    assert_eq!(upgraded.findings[0].code, "file_missing");
}

fn recovery() -> Recovery {
    Recovery {
        info: Some(RecoveryInfo {
            direction: "rollback",
            operations_reapplied: 0,
            operations_rolled_back: 2,
        }),
        findings: vec![Finding::at("recovered", "C:\\r")],
        actions: vec![],
        reboot_required: true,
    }
}

#[test]
fn reports_put_the_recovery_first() {
    let p = package();
    let row = installed("2.0");
    let mut o = already_installed("en-US", &p, &row);
    assert_eq!(o.code, "already_installed");
    with_installation(&mut o, &Some(installed("2.0")), 4, "C:\\db").unwrap();
    assert_eq!(o.installation.as_ref().unwrap().file_count, 4);
    let mut none = already_installed("en-US", &p, &row);
    assert_eq!(
        with_installation(&mut none, &None, 0, "C:\\db").unwrap_err().code,
        "journal_inconsistent"
    );
    o.duration_ms = 9;
    let reported = report_install(o, None, recovery(), &PhaseOutcome::default());
    assert_eq!((reported.schema, reported.duration_ms), (1, 9));
    assert_eq!(reported.exit_code, 3010);
    assert_eq!(reported.findings[0].code, "recovered");
    assert_eq!(reported.recovery.unwrap().operations_rolled_back, 2);

    let t = transaction(TxnState::Committed);
    let committed = finish(Ended::Committed, "en-US", &p, &t, vec![], vec![], false);
    let (gone, removes) = report_uninstall(committed, "en-US", &p, &row, Recovery::none());
    assert!(removes);
    assert_eq!(gone.outcome, "uninstalled");
    let kept = Outcome::new("rolled_back", "x", 1, "why");
    let (kept, removes) = report_uninstall(kept, "en-US", &p, &row, Recovery::none());
    assert!(!removes);
    assert_eq!((kept.outcome, kept.message.as_str()), ("rolled_back", "why"));
    let nothing = not_installed("en-US", &p, Recovery::none());
    assert_eq!((nothing.outcome, nothing.exit_code), ("not_installed", 0));
    let broken = failed("en-US", &p, &Error::new("metadata_invalid", "bad"));
    assert_eq!((broken.outcome, broken.exit_code), ("failed", 2));
    let phase = PhaseOutcome::default();
    let stopped = stopped_at_dependency(&p, "en-US", &phase, &failure(), recovery());
    assert_eq!((stopped.code.as_str(), stopped.exit_code), ("dependency_missing", 3));
    assert!(run_finished(&stopped).message.contains("exit_code=3"));
}

#[test]
fn an_upgrade_is_planned_from_what_is_owned() {
    let p = package();
    let o = RunOptions::default();
    let r = roots();
    let m = machine();
    let row = installed("1.0");
    let owned = Owned {
        files: vec![OwnedFile {
            path: "old.txt".into(),
            sha256: "o".into(),
            size: 1,
            modified: None,
        }],
        ..Default::default()
    };
    let payload =
        Payload { entries: vec![PayloadEntry { entry: "a.txt".into(), sha256: "a".into() }] };
    let recorded = Options::new();
    let mut input = Installing {
        package: &p,
        options: &o,
        roots: &r,
        kind: TxnKind::Upgrade,
        existing: Some(&row),
        recorded: &recorded,
        owned: &owned,
        repair: false,
        payload: &payload,
        firewall: false,
        machine: &m,
        install_date: "20260907",
    };
    let ground = lay_groundwork(&input).unwrap();
    assert_eq!(ground.install_root, row.install_root);
    let prepared = reconcile_run(&input, &ground, "t9", "now").unwrap();
    assert_eq!(prepared.transaction.from_version.as_deref(), Some("1.0"));
    assert_eq!(
        prepared.transaction.accepted_license_sha256.as_deref(),
        Some("old"),
        "an acceptance is carried forward"
    );
    assert_eq!(prepared.plan.counts.added, 1);
    assert_eq!(prepared.plan.findings[0].code, "file_missing");
    assert!(prepared.quiescence.entries.is_empty());
    let started =
        install_started(&prepared.transaction, &p, prepared.plan.operations.len(), &prepared.plan.counts);
    assert!(started.message.starts_with("transaction=t9 kind=upgrade from=1.0 to=2.0 "));
    assert!(run_started("install", &p, &o, &r, false, "9").message.ends_with(" engine=9"));

    let moved = RunOptions { install_root: Some("D:\\App".into()), ..Default::default() };
    input.options = &moved;
    assert_eq!(lay_groundwork(&input).unwrap_err().code, "install_root_conflict");
    let same = RunOptions {
        install_root: Some("c:/U/Local/Programs/App/".into()),
        ..Default::default()
    };
    input.options = &same;
    assert!(lay_groundwork(&input).is_ok(), "the same place, spelt another way");
    let stray = Owned {
        path_entries: vec![OwnedPathEntry {
            hive_key: "HKLM\\SYSTEM\\X".into(),
            raw: "x".into(),
            normalized: "x".into(),
            pre_existed: false,
            added: true,
        }],
        ..Default::default()
    };
    input.owned = &stray;
    assert_eq!(lay_groundwork(&input).unwrap_err().code, "path_outside_root");
}

#[test]
fn an_uninstall_is_planned_from_the_database_alone() {
    let p = package();
    let o = RunOptions::default();
    let r = roots();
    let mut m = machine();
    m.directories.push("C:\\U\\Local\\Programs\\App".into());
    m.files.push(FileSeen {
        path: "C:\\U\\Local\\Programs\\App\\a.txt".into(),
        sha256: "a".into(),
        size: 1,
        modified: None,
    });
    let row = installed("1.0");
    let mut owned = Owned {
        files: vec![OwnedFile { path: "a.txt".into(), sha256: "a".into(), size: 1, modified: None }],
        directories: vec![OwnedDirectory { path: String::new(), created: true }],
        ..Default::default()
    };
    let recorded = Options::new();
    let prepare = |owned: &Owned| {
        uninstall_run(
            &Uninstalling {
                package: &p,
                options: &o,
                roots: &r,
                existing: &row,
                recorded: &recorded,
                owned,
                firewall: false,
                machine: &m,
            },
            "t1",
            "now",
        )
    };
    let prepared = prepare(&owned).unwrap();
    assert_eq!(prepared.plan.counts.removed, 1);
    assert_eq!(prepared.plan.counts.directories_removed, 1);
    assert_eq!(prepared.transaction.kind, TxnKind::Uninstall);
    assert_eq!(prepared.transaction.to_version, None);
    assert_eq!(prepared.context.version, "1.0");
    owned.actions.push(OwnedAction {
        name: "x".into(),
        phase: "pre-uninstall".into(),
        definition: "zz".into(),
        artifact_sha256: None,
        artifact_file: None,
        artifact_size: None,
    });
    assert_eq!(prepare(&owned).unwrap_err().code, "journal_inconsistent");
}

#[test]
fn skipped_actions_and_options_read_in_the_log() {
    let mut actions = ActionPlan::default();
    actions.skipped = vec![("a".into(), "option"), ("b".into(), "operation")];
    assert_eq!(
        report_skipped_actions(&actions),
        ["a: disabled by its option", "b: not declared for this operation"]
    );
    let mut o = Options::new();
    o.insert("mode", OptionValue::Choice("all".into()));
    o.insert("desktop", OptionValue::Bool(true));
    assert_eq!(show_options(&o), "desktop=true mode=all");
    assert!(firewall_store(true).is_none());
    assert_eq!(firewall_store(false).unwrap().code, "firewall_store_read_only");
}

#[test]
fn a_running_origin_is_moved_out_of_the_state_directory() {
    let m = machine();
    assert_eq!(stem_of("App.Setup.exe"), "App.Setup");
    assert_eq!(stem_of(".hidden"), ".hidden");
    assert_eq!(stem_of("plain"), "plain");
    assert_eq!(
        origin_aside_path("C:\\U\\Temp\\TigerSetup\\u-1.exe", &m),
        "C:\\U\\Temp\\TigerSetup\\u-1-origin.exe"
    );
    let state = "C:\\U\\Local\\TigerSetup\\V.App";
    let origin = "C:\\U\\Local\\TigerSetup\\V.App\\uninstall.exe";
    let copy = "C:\\U\\Temp\\TigerSetup\\u-1.exe";
    assert_eq!(
        remove_state_directory(Some(origin), copy, state, true, &m),
        Some((origin.to_string(), "C:\\U\\Temp\\TigerSetup\\u-1-origin.exe".to_string()))
    );
    assert_eq!(remove_state_directory(Some(origin), copy, state, false, &m), None);
    assert_eq!(remove_state_directory(None, copy, state, true, &m), None);
    let beside = "C:\\U\\Local\\TigerSetup\\V.App2\\u.exe";
    assert_eq!(remove_state_directory(Some(beside), copy, state, true, &m), None);
}

fn state(owned: Owned, row: Option<InstallationRow>) -> State {
    State { open: None, installation: row, owned, options: Options::new(), file_count: 1 }
}

#[test]
fn verify_compares_what_is_owned_with_the_machine() {
    let p = package();
    let o = RunOptions::default();
    let mut m = machine();
    let registration = KeyPath::parse(
        "HKCU\\Software\\Microsoft\\Windows\\CurrentVersion\\Uninstall\\V.App",
    )
    .unwrap();
    m.keys.push(registration.clone());
    m.values.push(ValueSeen {
        key: registration.clone(),
        name: "DisplayName".into(),
        data: Data::String("App".into()),
    });
    m.files.push(FileSeen {
        path: "C:\\U\\Local\\Programs\\App\\a.txt".into(),
        sha256: "a".into(),
        size: 1,
        modified: None,
    });
    let value = |name: &str, data: &str| OwnedRegistryValue {
        key: registration.to_string(),
        name: name.into(),
        kind: "string".into(),
        data: data.into(),
        pre_existed: false,
        previous_kind: None,
        previous_data: None,
    };
    let file = |path: &str, sha256: &str| OwnedFile {
        path: path.into(),
        sha256: sha256.into(),
        size: 1,
        modified: None,
    };
    let good = Owned {
        files: vec![file("a.txt", "a")],
        registry_values: vec![value("DisplayName", "App")],
        registration_key: Some(registration.to_string()),
        ..Default::default()
    };
    let report =
        verify(&p, &o, &Ok(Some(state(good, Some(installed("2.0"))))), &m).unwrap();
    assert_eq!(report.status, "ok");
    assert_eq!((report.counts.files_checked, report.counts.files_ok), (1, 1));
    assert_eq!(report.counts.registration_values_ok, 1);
    assert_eq!(report.exit_code(), 0);

    let bad = Owned {
        files: vec![file("a.txt", "z"), file("b.txt", "b"), file("..\\c.txt", "c")],
        directories: vec![OwnedDirectory { path: "gone".into(), created: true }],
        registry_values: vec![value("DisplayName", "Other"), value("Missing", "x")],
        path_entries: vec![OwnedPathEntry {
            hive_key: "HKCU\\Environment".into(),
            raw: "C:\\p".into(),
            normalized: "c:\\p".into(),
            pre_existed: false,
            added: true,
        }],
        shortcuts: vec![OwnedShortcut { path: "C:\\U\\a.lnk".into(), target: "C:\\x".into() }],
        registration_key: Some("HKCU\\Software\\Gone".into()),
        ..Default::default()
    };
    let report = verify(&p, &o, &Ok(Some(state(bad, Some(installed("2.0"))))), &m).unwrap();
    assert_eq!(report.status, "failed");
    let codes: Vec<&str> = report.findings.iter().map(|f| f.code).collect();
    assert_eq!(
        codes,
        [
            "file_modified",
            "file_missing",
            "path_outside_root",
            "directory_missing",
            "registration_missing",
            "registry_value_modified",
            "registry_value_missing",
            "path_entry_missing",
            "shortcut_missing",
        ]
    );
    assert_eq!((report.counts.files_checked, report.counts.files_ok), (3, 0));

    let none = verify(&p, &o, &Ok(None), &m).unwrap();
    assert_eq!(none.status, "not_installed");
    let busy = verify(&p, &o, &Err(Error::new("database_busy", "held")), &m).unwrap();
    assert_eq!((busy.status, busy.findings[0].code), ("failed", "database_busy"));
    assert_eq!(
        verify(&p, &o, &Err(Error::new("io_error", "x")), &m).unwrap_err().code,
        "io_error"
    );
    let mut open = state(Owned::default(), Some(installed("1.0")));
    open.open = Some((transaction(TxnState::Running), "forward"));
    let told = verify(&p, &o, &Ok(Some(open)), &m).unwrap();
    assert_eq!(told.status, "transaction_open");
    assert_eq!(told.transaction.unwrap().recovery_direction, Some("forward"));
}

#[test]
fn inspect_describes_the_package_and_what_is_owned() {
    let p = package();
    let o = RunOptions::default();
    let m = machine();
    let owned = Owned {
        shortcuts: vec![OwnedShortcut { path: "C:\\U\\a.lnk".into(), target: "C:\\x".into() }],
        ..Default::default()
    };
    let report =
        inspect(&p, &o, vec![], &Ok(Some(state(owned, Some(installed("2.0"))))), &m).unwrap();
    assert_eq!(report.package.scopes, ["user"]);
    assert_eq!(report.owned.unwrap().shortcuts, ["C:\\U\\a.lnk"]);
    assert_eq!(report.installation.unwrap().version, "2.0");
    let empty = inspect(&p, &o, vec![], &Ok(None), &m).unwrap();
    assert!(empty.installation.is_none() && empty.owned.is_none());
    let busy =
        inspect(&p, &o, vec![], &Err(Error::new("state_unreadable", "no")), &m).unwrap();
    assert_eq!(busy.findings[0].code, "state_unreadable");
}
