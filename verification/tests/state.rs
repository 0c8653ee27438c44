use tigersetup_engine::action::definition::{serialize_quiescence, Action, ActionPhase, Quiescence};
use tigersetup_engine::machine::Machine;
use tigersetup_engine::metadata::OptionValue;
use tigersetup_engine::plan::operation::PlannedOperation;
use tigersetup_engine::state::action::{latest, start, Starting, COMPLETED, FAILED, STARTED};
use tigersetup_engine::state::installation::OwnedAction;
use tigersetup_engine::state::journal::{
    open_transaction, OpKind, OpState, StoredTransaction, TransactionRow, TxnKind, TxnState, Undo,
};
use tigersetup_engine::state::ownership::{
    begin, installation_of, option_value_of, owned_program_hashes, record_ownership, StoredValue,
};
use tigersetup_engine::state::schema::{has_schema, migrations, readable, SCHEMA_VERSION};

fn starting() -> Starting {
    Starting {
        name: "build-cache".into(),
        phase: "post-install",
        operation: "install",
        kind: "exe",
        program: "C:\\x.exe".into(),
        on_failure: "fail",
    }
}

#[test]
fn a_run_is_started_then_finished_and_the_latest_is_found() {
    let mut rows = vec![start(1, "t1", 3, starting(), "T1")];
    {
        let started = latest(&rows, "t1", 3).unwrap();
        assert_eq!(started.status, STARTED);
        assert_eq!(started.exit_code, None);
        assert!(started.finished_at.is_none());
    }
    rows[0].finish(FAILED, Some(3), false, "T2");
    let mut second = start(2, "t1", 3, starting(), "T3");
    second.finish(COMPLETED, Some(3010), true, "T4");
    rows.push(second);
    assert_eq!(rows.len(), 2);
    assert_eq!(rows[0].status, FAILED);
    assert_eq!(rows[0].exit_code, Some(3));
    assert!(rows[0].finished_at.is_some());
    let last = latest(&rows, "t1", 3).unwrap();
    assert_eq!(last.id, 2);
    assert!(last.reboot_required);
    assert!(latest(&rows, "t1", 4).is_none());
}

fn transaction(id: &str, state: TxnState, started_at: &str) -> TransactionRow {
    TransactionRow {
        id: id.into(),
        kind: TxnKind::Install,
        from_version: None,
        to_version: Some("1.0".into()),
        package_id: "P".into(),
        package_version: "1.0".into(),
        metadata_sha256: "ab".into(),
        scope: "user".into(),
        install_root: "C:\\App".into(),
        state,
        started_at: started_at.into(),
        finished_at: None,
        registration_key: Some("HKCU\\K".into()),
        accepted_license_sha256: Some("lic".into()),
    }
}

fn stored(row: &TransactionRow, kind: &str) -> StoredTransaction {
    StoredTransaction {
        kind: kind.into(),
        state: row.state.as_str().into(),
        rest: transaction(&row.id, row.state, &row.started_at),
    }
}

#[test]
fn the_open_transaction_is_the_last_that_is_not_over() {
    let rows = vec![
        transaction("a", TxnState::Committed, "3"),
        transaction("b", TxnState::Running, "1"),
        transaction("c", TxnState::RollbackFailed, "2"),
        transaction("d", TxnState::RolledBack, "4"),
    ];
    let found = open_transaction(rows.iter().map(|row| stored(row, "install")).collect());
    assert_eq!(found.unwrap().map(|row| (row.id, row.state)), Some(("c".into(), TxnState::RollbackFailed)));
    assert!(open_transaction(vec![]).unwrap().is_none());
    assert!(open_transaction(vec![stored(&rows[0], "juggle")]).unwrap().is_none());
    let mut odd = stored(&rows[1], "install");
    odd.state = "juggling".into();
    odd.rest.started_at = "9".into();
    let err = open_transaction(vec![stored(&rows[2], "install"), odd]).unwrap_err();
    assert_eq!(err.message, "unknown transaction state \"juggling\"");
    let row = installation_of(&rows[0], "i1", "9.9", "now");
    assert_eq!((row.id.as_str(), row.version.as_str()), ("i1", "1.0"));
    assert_eq!(row.accepted_license_sha256.as_deref(), Some("lic"));
    assert_eq!(row.registration_key.as_deref(), Some("HKCU\\K"));
}

#[test]
fn stored_words_read_back_and_others_are_refused() {
    for kind in [TxnKind::Install, TxnKind::Reinstall, TxnKind::Uninstall] {
        assert_eq!(TxnKind::parse(kind.as_str()).unwrap(), kind);
    }
    assert_eq!(TxnState::parse("rolling_back").unwrap(), TxnState::RollingBack);
    assert_eq!(OpKind::parse("store_action").unwrap(), OpKind::StoreAction);
    assert_eq!(OpState::parse("applied").unwrap(), OpState::Applied);
    let err = OpKind::parse("juggle").unwrap_err();
    assert_eq!(err.code, "journal_inconsistent");
    assert_eq!(err.message, "unknown operation kind \"juggle\"");
    assert!(TxnState::Committed.is_terminal() && !TxnState::RollbackFailed.is_terminal());
    assert!(OpKind::KeepFile.is_keep() && !OpKind::InstallFile.is_keep());
}

#[test]
fn a_committed_journal_becomes_what_is_owned() {
    let operations = vec![
        PlannedOperation::new(OpKind::CreateDirectory, "bin"),
        PlannedOperation::install_file("bin\\a.exe", "bin/a.exe", 7),
        PlannedOperation::new(OpKind::RemoveFile, "old.txt"),
        PlannedOperation::keep_file("keep.txt", 3, "kk", None),
    ];
    let mut rows = begin("t1", &operations);
    assert_eq!(rows[1].sequence, 2);
    assert_eq!(rows[0].state, OpState::Planned);
    assert_eq!(rows[3].state, OpState::Applied, "a keep mutates nothing");
    rows[0].mark_prepared(Undo { existed: false, ..Default::default() });
    rows[0].mark_applied(None, None);
    rows[1].mark_prepared(Undo::default());
    rows[1].mark_state(OpState::Applying);
    rows[1].mark_applied(Some("hh".into()), None);
    let owned = record_ownership(&rows, &Machine::empty()).unwrap();
    assert!(owned.directories[0].created);
    assert_eq!(owned.files.len(), 2);
    assert_eq!((owned.files[0].sha256.as_str(), owned.files[0].size), ("hh", 7));
    assert_eq!(owned.files[1].path, "keep.txt");
}

#[test]
fn schemas_are_migrated_one_by_one_and_newer_ones_are_refused() {
    assert_eq!(migrations(2).unwrap().last(), Some(&SCHEMA_VERSION));
    assert!(migrations(SCHEMA_VERSION).unwrap().is_empty());
    assert!(migrations(SCHEMA_VERSION + 1).is_err());
    assert!(!readable(0).unwrap());
    assert!(readable(2).unwrap());
    assert!(readable(1).is_err());
    assert!(has_schema(3, 3) && !has_schema(2, 3));
}

#[test]
fn a_stored_option_is_text_or_an_older_integer() {
    assert_eq!(option_value_of(StoredValue::Integer(1)), OptionValue::Bool(true));
    assert_eq!(option_value_of(StoredValue::Text("false".into())), OptionValue::Bool(false));
    assert_eq!(
        option_value_of(StoredValue::Text("tools".into())),
        OptionValue::Choice("tools".into())
    );
}

#[test]
fn the_store_keeps_every_packaged_program_once() {
    let packaged = |sha: &str| Action {
        name: "x".into(),
        phase: ActionPhase::Quiesce,
        entry: "actions/x.exe".into(),
        file_name: "x.exe".into(),
        sha256: sha.into(),
        ..Default::default()
    };
    let entry = Quiescence {
        name: "x".into(),
        run_on: vec![],
        stop: packaged("AB"),
        resume: Some(packaged("cd")),
        not_running_codes: vec![],
        when: None,
    };
    let row = |phase: &str, definition: String, sha: Option<&str>| OwnedAction {
        name: "x".into(),
        phase: phase.into(),
        definition,
        artifact_sha256: sha.map(str::to_string),
        artifact_file: None,
        artifact_size: None,
    };
    let rows = vec![
        row("quiesce", serialize_quiescence(&entry), None),
        row("pre-uninstall", String::new(), Some("EF")),
        row("post-uninstall", String::new(), Some("ab")),
        row("post-uninstall", String::new(), None),
    ];
    assert_eq!(owned_program_hashes(&rows).unwrap(), ["ab", "cd", "ef"]);
    assert!(owned_program_hashes(&vec![row("quiesce", "zz".into(), None)]).is_err());
}

#[test]
fn a_later_row_replaces_an_earlier_one_of_the_same_identity() {
    let entry = Quiescence {
        name: "x".into(),
        run_on: vec![],
        stop: Action { name: "x".into(), phase: ActionPhase::Quiesce, ..Default::default() },
        resume: None,
        not_running_codes: vec![],
        when: None,
    };
    let action =
        Action { name: "x".into(), phase: ActionPhase::PreUninstall, ..Default::default() };
    let operations = vec![
        PlannedOperation::install_file("a.txt", "a.txt", 1),
        PlannedOperation::install_file("A.txt", "A.txt", 2),
        PlannedOperation::install_file("a.txt", "a2.txt", 3),
        PlannedOperation::action(OpKind::StoreAction, &action),
        PlannedOperation::quiescence(&entry),
    ];
    let owned = record_ownership(&begin("t", &operations), &Machine::empty()).unwrap();
    let sizes: Vec<u64> = owned.files.iter().map(|f| f.size).collect();
    assert_eq!(sizes, [2, 3]);
    let phases: Vec<&str> = owned.actions.iter().map(|a| a.phase.as_str()).collect();
    assert_eq!(phases, ["pre-uninstall", "quiesce"]);
}
