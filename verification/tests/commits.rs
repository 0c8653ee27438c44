use tigersetup_engine::engine::package::uninstaller_of;
use tigersetup_engine::engine::package::Package;
use tigersetup_engine::engine::transact::{transact, TransactionStep, TransactionWorld};
use tigersetup_engine::machine::Machine;
use tigersetup_engine::metadata::{Metadata, OptionValue, Scope};
use tigersetup_engine::plan::operation::PlannedOperation;
use tigersetup_engine::resource::predicate::Options;
use tigersetup_engine::state::commit::{commit_ownership, commit_uninstall};
use tigersetup_engine::state::failure::{report, Refusal};
use tigersetup_engine::state::installation::OwnedFile;
use tigersetup_engine::state::journal::{
    operations, read_txn, OpKind, OpState, OperationRow, StoredOperation, StoredTransaction,
    TransactionRow, TxnKind, TxnState,
};
use tigersetup_engine::state::ownership::begin;
use tigersetup_engine::Error;

fn transaction() -> TransactionRow {
    TransactionRow {
        id: "t".into(),
        kind: TxnKind::Install,
        from_version: None,
        to_version: Some("1.0".into()),
        package_id: "P".into(),
        package_version: "1.0".into(),
        metadata_sha256: "m".into(),
        scope: "user".into(),
        install_root: "C:\\App".into(),
        state: TxnState::Running,
        started_at: "T0".into(),
        finished_at: None,
        registration_key: Some("HKCU\\K".into()),
        accepted_license_sha256: None,
    }
}

#[test]
fn a_commit_leaves_what_the_journal_applied() {
    let mut rows = begin("t", &vec![PlannedOperation::install_file("a.txt", "a.txt", 3)]);
    rows[0].mark_applied(Some("aa".into()), None);
    let mut options = Options::new();
    options.insert("desktop", OptionValue::Bool(true));
    let done =
        commit_ownership(transaction(), &rows, options, "i", "9", "T1", &Machine::empty()).unwrap();
    let row = done.installation.unwrap();
    assert_eq!((row.id.as_str(), row.version.as_str(), row.engine_version.as_str()), ("i", "1.0", "9"));
    assert_eq!(done.owned.files[0].sha256, "aa");
    assert_eq!(done.owned.registration_key.as_deref(), Some("HKCU\\K"));
    assert_eq!(done.options.get("desktop"), Some(&OptionValue::Bool(true)));
    assert_eq!(done.transaction.state, TxnState::Committed);
    assert_eq!(done.transaction.finished_at.as_deref(), Some("T1"));

    let mut bad = PlannedOperation::new(OpKind::StoreAction, "x");
    bad.value_data = Some("zz".into());
    let rows = begin("t", &vec![bad]);
    assert!(commit_ownership(
        transaction(),
        &rows,
        Options::new(),
        "i",
        "9",
        "T1",
        &Machine::empty()
    )
    .is_err());
}

#[test]
fn an_uninstall_commits_to_nothing() {
    let done = commit_uninstall(transaction(), "T1");
    assert!(done.installation.is_none());
    assert!(done.owned.files.is_empty() && done.owned.registration_key.is_none());
    assert!(done.transaction.state.is_terminal());
    let mut txn = transaction();
    txn.set_transaction_state(TxnState::RollingBack, None);
    assert_eq!(txn.finished_at, None);
    txn.set_transaction_state(TxnState::RolledBack, Some("T2".into()));
    txn.set_transaction_state(TxnState::RollbackFailed, None);
    assert_eq!(txn.finished_at.as_deref(), Some("T2"), "a recorded time stays");
}

#[test]
fn stored_rows_read_back_and_unknown_words_are_refused() {
    let stored = |kind: &str, state: &str| StoredTransaction {
        kind: kind.into(),
        state: state.into(),
        rest: transaction(),
    };
    let row = read_txn(stored("upgrade", "rolling_back")).unwrap();
    assert_eq!((row.kind, row.state), (TxnKind::Upgrade, TxnState::RollingBack));
    assert_eq!(row.package_id, "P");
    let both = read_txn(stored("x", "y")).unwrap_err();
    assert_eq!(both.message, "unknown transaction state \"y\"");
    let kind = read_txn(stored("x", "running")).unwrap_err();
    assert_eq!(kind.message, "unknown transaction kind \"x\"");

    let rest = || -> OperationRow {
        begin("t", &vec![PlannedOperation::new(OpKind::CreateDirectory, "d")]).remove(0)
    };
    let op = |kind: &str, state: &str| StoredOperation {
        kind: kind.into(),
        state: state.into(),
        rest: rest(),
    };
    let rows =
        operations(vec![op("install_file", "applied"), op("remove_file", "planned")]).unwrap();
    assert_eq!((rows[0].kind, rows[0].state), (OpKind::InstallFile, OpState::Applied));
    assert_eq!(rows[1].kind, OpKind::RemoveFile);
    let err = operations(vec![op("install_file", "x"), op("y", "applied")]).unwrap_err();
    assert_eq!(err.message, "unknown operation state \"x\"");
}

#[test]
fn a_refused_database_call_has_its_code() {
    assert_eq!(report(Refusal::Busy, "m").code, "database_busy");
    assert_eq!(report(Refusal::Locked, "m").code, "database_busy");
    let unreadable = report(Refusal::ReadOnly, "m");
    assert_eq!(unreadable.code, "state_unreadable");
    assert_eq!(unreadable.message, "the state database cannot be opened: m");
    assert_eq!(report(Refusal::Other, "m").code, "database_error");
    assert_eq!(report(Refusal::Other, "m").message, "m");
}

fn transacting() -> TransactionWorld {
    TransactionWorld { quiesced: None, freed: None, begun: None, executed: None, settled: false }
}

#[test]
fn a_transaction_journals_nothing_until_the_files_are_free() {
    let mut w = transacting();
    assert_eq!(transact(&w), TransactionStep::Quiesce);
    w.quiesced = Some(Ok(()));
    assert_eq!(transact(&w), TransactionStep::FreeFiles);
    w.freed = Some(Err(Error::new("package_in_use", "held")));
    assert_eq!(transact(&w), TransactionStep::Resume, "what was stopped runs again first");
    w.settled = true;
    assert_eq!(transact(&w), TransactionStep::Fail);

    let mut w = transacting();
    w.quiesced = Some(Ok(()));
    w.freed = Some(Ok(()));
    assert_eq!(transact(&w), TransactionStep::Begin);
    w.begun = Some(Ok(()));
    assert_eq!(transact(&w), TransactionStep::Execute);
    w.executed = Some(Ok(()));
    assert_eq!(transact(&w), TransactionStep::Settle);
    w.settled = true;
    assert_eq!(transact(&w), TransactionStep::Report);
    let refused =
        TransactionWorld { quiesced: Some(Err(Error::new("x", ""))), ..transacting() };
    assert_eq!(transact(&refused), TransactionStep::Resume, "what stopped before it runs again");
    let resumed = TransactionWorld { settled: true, ..refused };
    assert_eq!(transact(&resumed), TransactionStep::Fail);
}

#[test]
fn an_uninstaller_copy_serves_its_own_scope() {
    let copy = uninstaller_of(
        Package {
            metadata: Metadata::default(),
            metadata_sha256: "m".into(),
            path: "C:\\p.exe".into(),
            uninstaller_scope: None,
            license_sha256: None,
            minimum_build: 0,
            tigersetup_version: "1".into(),
            engine_sha256: "e".into(),
            engine_block_sha256: "b".into(),
        },
        Scope::Machine,
    );
    assert!(copy.is_uninstaller());
    assert_eq!(copy.default_scope(), Scope::Machine);
}

#[test]
fn a_recorded_file_is_compared_by_size_and_time() {
    let mut file = OwnedFile {
        path: "a".into(),
        sha256: "h".into(),
        size: 3,
        modified: Some(9),
    };
    let print = file.fingerprint().unwrap();
    assert_eq!((print.size, print.modified), (3, 9));
    file.modified = None;
    assert!(file.fingerprint().is_none(), "a row written before times were recorded");
}
