//! The mutating runs: what each intent does next, and how it ends. Every path
//! first recovers an open transaction; dependencies are satisfied before the
//! product transaction opens and outside it, so a failure there leaves no
//! product change; and install, upgrade, reinstall and repair are one
//! reconciliation of the package and the options in effect against what is
//! owned.

use vstd::prelude::*;

use crate::dependency;
use crate::dependency::PhaseOutcome;
use crate::engine::package;
use crate::engine::package::{Package, RunOptions};
use crate::engine::verify;
use crate::error;
use crate::error::{Error, ErrorView};
use crate::i18n;
use crate::lists;
use crate::machine::Machine;
use crate::metadata::Metadata;
use crate::paths;
use crate::plan::desired;
use crate::plan::target;
use crate::report::documents;
use crate::report::documents::{
    ActionInfo, Event, HolderInfo, LegacyInfo, Outcome, RecoveryInfo,
};
use crate::report::exit;
use crate::report::{Finding, FindingView};
use crate::resource::predicate::Options;
use crate::state::installation::InstallationRow;
use crate::state::journal::{TransactionRow, TxnKind};
use crate::text;

verus! {

/// What a person is told: the phrase of a key, filled.
pub open spec fn told(lang: Seq<char>, key: Seq<char>, values: Seq<(Seq<char>, Seq<char>)>) -> Seq<
    char,
> {
    i18n::filled(i18n::phrase(lang, key), values)
}

/// What a person is told: the phrase of a key, filled.
pub fn human(lang: &str, key: &str, values: &[(&str, &str)]) -> (r: String)
    ensures
        r@ == told(lang@, key@, i18n::pairs(values@)),
{
    let template = i18n::text(lang, key);
    i18n::fill(template.as_str(), values)
}

/// The name and version of a package, and one thing more.
pub open spec fn about(p: Package, what: Seq<char>, value: Seq<char>) -> Seq<
    (Seq<char>, Seq<char>),
> {
    seq![
        ("name"@, p.metadata.package.name@),
        ("version"@, p.metadata.package.version@),
        (what, value),
    ]
}

fn human_about(lang: &str, key: &str, p: &Package, what: &str, value: &str) -> (r: String)
    ensures
        r@ == told(lang@, key@, about(*p, what@, value@)),
{
    let values: [(&str, &str); 3] = [("name", p.name()), ("version", p.version()), (what, value)];
    assert(i18n::pairs(values@) =~= about(*p, what@, value@));
    human(lang, key, &values)
}

/// How the transaction of a run ended.
#[derive(Debug)]
pub enum Ended {
    Committed,
    /// It failed and was rolled back.
    RolledBack(Error),
    /// It failed, and so did rolling it back.
    Stuck(Error, Error),
}

/// The word, the code, the exit code and the text of an end.
pub open spec fn ending(e: Ended, lang: Seq<char>, p: Package, root: Seq<char>) -> (
    Seq<char>,
    Seq<char>,
    i32,
    Seq<char>,
) {
    match e {
        Ended::Committed => (
            "installed"@,
            "ok"@,
            exit::OK,
            told(lang, "outcome.installed"@, about(p, "root"@, root)),
        ),
        Ended::RolledBack(err) => if err@.code == "cancelled"@ {
            (
                "cancelled"@,
                err@.code,
                exit::CANCELLED,
                told(lang, "outcome.cancelled"@, about(p, "reason"@, err@.message)),
            )
        } else {
            (
                "rolled_back"@,
                err@.code,
                exit::ROLLED_BACK,
                told(lang, "outcome.rolled_back"@, about(p, "reason"@, err@.message)),
            )
        },
        Ended::Stuck(err, rollback) => (
            "failed"@,
            rollback@.code,
            exit::RECOVERY_INCOMPLETE,
            told(
                lang,
                "outcome.failed"@,
                about(p, "reason"@, err@.message + "; "@ + rollback@.message),
            ),
        ),
    }
}

/// The exit code of a run that may have asked for a restart: only a success
/// says so.
pub open spec fn rebooting(code: i32, reboot_required: bool) -> i32 {
    if reboot_required && code == exit::OK {
        exit::REBOOT_REQUIRED
    } else {
        code
    }
}

/// Whether an outcome is that of an ended transaction.
pub open spec fn is_finished(
    r: Outcome,
    e: Ended,
    lang: Seq<char>,
    p: Package,
    txn: TransactionRow,
    findings: Seq<Finding>,
    actions: Seq<ActionInfo>,
    reboot_required: bool,
) -> bool {
    let (word, code, exit_code, message) = ending(e, lang, p, txn.install_root@);
    &&& r.outcome@ == word
    &&& r.code@ == code
    &&& r.exit_code == rebooting(exit_code, reboot_required)
    &&& r.message@ == message
    &&& r.transaction matches Some(t)
    &&& verify::tells(t, txn, None)
    &&& r.findings@ == findings
    &&& r.actions@ == actions
    &&& r.reboot_required == reboot_required
    &&& r.schema == documents::SCHEMA
    &&& r.installation is None
    &&& r.recovery is None
    &&& r.legacy is None
    &&& r.closed_applications@.len() == 0
    &&& r.dependencies@.len() == 0
    &&& r.dependency is None
    &&& r.reason is None
    &&& r.existing_installations@.len() == 0
    &&& r.log is None
    &&& r.launch is None
    &&& r.duration_ms == 0
}

/// Turns the end of a transaction into an outcome.
pub fn finish(
    e: Ended,
    lang: &str,
    p: &Package,
    txn: &TransactionRow,
    findings: Vec<Finding>,
    actions: Vec<ActionInfo>,
    reboot_required: bool,
) -> (r: Outcome)
    ensures
        is_finished(r, e, lang@, *p, *txn, findings@, actions@, reboot_required),
{
    let mut outcome = match e {
        Ended::Committed => {
            let message = human_about(
                lang,
                "outcome.installed",
                p,
                "root",
                txn.install_root.as_str(),
            );
            Outcome::new("installed", "ok", exit::OK, message.as_str())
        },
        Ended::RolledBack(err) => {
            if text::same(err.code, "cancelled") {
                let message = human_about(
                    lang,
                    "outcome.cancelled",
                    p,
                    "reason",
                    err.message.as_str(),
                );
                Outcome::new("cancelled", err.code, exit::CANCELLED, message.as_str())
            } else {
                let message = human_about(
                    lang,
                    "outcome.rolled_back",
                    p,
                    "reason",
                    err.message.as_str(),
                );
                Outcome::new("rolled_back", err.code, exit::ROLLED_BACK, message.as_str())
            }
        },
        Ended::Stuck(err, rollback) => {
            let why = text::cat3(err.message.as_str(), "; ", rollback.message.as_str());
            let message = human_about(lang, "outcome.failed", p, "reason", why.as_str());
            Outcome::new("failed", rollback.code, exit::RECOVERY_INCOMPLETE, message.as_str())
        },
    };
    outcome.transaction = Some(verify::transaction_info(txn, None));
    outcome.findings = findings;
    outcome.actions = actions;
    if reboot_required {
        outcome.reboot_required = true;
        if outcome.exit_code == exit::OK {
            outcome.exit_code = exit::REBOOT_REQUIRED;
        }
    }
    outcome
}

/// A run that asks for a restart says so by its exit code only where the
/// product was installed: a failure stays the failure it is.
pub proof fn lemma_a_restart_never_hides_a_failure(
    e: Ended,
    lang: Seq<char>,
    p: Package,
    root: Seq<char>,
    reboot_required: bool,
)
    ensures
        rebooting(ending(e, lang, p, root).2, reboot_required) == exit::REBOOT_REQUIRED ==> e
            is Committed && reboot_required,
        rebooting(ending(e, lang, p, root).2, reboot_required) == exit::OK ==> e is Committed
            && !reboot_required,
{
}

/// What a recovery did before the run's own work.
#[derive(Debug)]
pub struct Recovery {
    pub info: Option<RecoveryInfo>,
    pub findings: Vec<Finding>,
    pub actions: Vec<ActionInfo>,
    pub reboot_required: bool,
}

impl Recovery {
    /// There was nothing to recover.
    pub fn none() -> (r: Recovery)
        ensures
            r.info is None,
            r.findings@.len() == 0,
            r.actions@.len() == 0,
            !r.reboot_required,
    {
        Recovery {
            info: None,
            findings: Vec::new(),
            actions: Vec::new(),
            reboot_required: false,
        }
    }
}

/// Attaches what a recovery did to the outcome: its summary, and its findings
/// and actions ahead of the run's own.
pub fn with_recovery(outcome: &mut Outcome, recovery: Recovery)
    ensures
        final(outcome).recovery == recovery.info,
        final(outcome).findings@ == recovery.findings@ + old(outcome).findings@,
        final(outcome).actions@ == recovery.actions@ + old(outcome).actions@,
        final(outcome).reboot_required == (old(outcome).reboot_required
            || recovery.reboot_required),
        final(outcome).exit_code == rebooting(old(outcome).exit_code, recovery.reboot_required),
        *final(outcome) == (Outcome {
            recovery: final(outcome).recovery,
            findings: final(outcome).findings,
            actions: final(outcome).actions,
            reboot_required: final(outcome).reboot_required,
            exit_code: final(outcome).exit_code,
            ..*old(outcome)
        }),
{
    outcome.recovery = recovery.info;
    let mut findings = recovery.findings;
    findings.append(&mut outcome.findings);
    outcome.findings = findings;
    let mut actions = recovery.actions;
    actions.append(&mut outcome.actions);
    outcome.actions = actions;
    if recovery.reboot_required {
        outcome.reboot_required = true;
        if outcome.exit_code == exit::OK {
            outcome.exit_code = exit::REBOOT_REQUIRED;
        }
    }
}

/// What an installing run is to do with what is installed.
#[derive(Debug, Clone, Copy, PartialEq, Eq, Structural)]
pub enum Intended {
    /// The same version is there and nothing is to change.
    Nothing,
    Transaction(TxnKind),
}

/// What an installing run is to do: only a same-version run with nothing to
/// change is a no-op — and a licence acceptance the installation does not
/// record yet is something to change.
pub open spec fn intended(
    existing: Option<InstallationRow>,
    p: Package,
    o: RunOptions,
) -> Intended {
    match existing {
        None => Intended::Transaction(TxnKind::Install),
        Some(row) => if row.version@ != p.metadata.package.version@ {
            Intended::Transaction(TxnKind::Upgrade)
        } else if o.options.listed().len() == 0 && (package::acceptance(p, o) is None
            || package::acceptance(p, o) == text::option_view(row.accepted_license_sha256)) {
            Intended::Nothing
        } else {
            Intended::Transaction(TxnKind::Reinstall)
        },
    }
}

/// What an installing run is to do.
pub fn intent(existing: &Option<InstallationRow>, p: &Package, o: &RunOptions) -> (r: Intended)
    ensures
        r == intended(*existing, *p, *o),
{
    let row = match existing {
        None => {
            return Intended::Transaction(TxnKind::Install);
        },
        Some(row) => row,
    };
    if !text::same(row.version.as_str(), p.version()) {
        return Intended::Transaction(TxnKind::Upgrade);
    }
    let accepted = package::accepted_license(p, o);
    let unchanged = match (&accepted, &row.accepted_license_sha256) {
        (None, _) => true,
        (Some(a), Some(b)) => text::same(a.as_str(), b.as_str()),
        (Some(_), None) => false,
    };
    if o.options.entries().len() == 0 && unchanged {
        Intended::Nothing
    } else {
        Intended::Transaction(TxnKind::Reinstall)
    }
}

/// What a repair without an installation is refused with.
pub open spec fn nothing_to_repair(p: Package) -> ErrorView {
    ErrorView {
        code: "not_installed"@,
        message: p.metadata.package.name@ + " is not installed; there is nothing to repair"@,
    }
}

/// What a repair is: of another version, it is an upgrade.
pub fn repair_kind(existing: &Option<InstallationRow>, p: &Package) -> (r: Result<TxnKind, Error>)
    ensures
        match *existing {
            None => (r matches Err(e) && e@ == nothing_to_repair(*p)),
            Some(row) => r == Ok::<TxnKind, Error>(
                if row.version@ == p.metadata.package.version@ {
                    TxnKind::Repair
                } else {
                    TxnKind::Upgrade
                },
            ),
        },
{
    match existing {
        None => {
            let message = text::cat2(p.name(), " is not installed; there is nothing to repair");
            Err(Error::new("not_installed", message.as_str()))
        },
        Some(row) => if text::same(row.version.as_str(), p.version()) {
            Ok(TxnKind::Repair)
        } else {
            Ok(TxnKind::Upgrade)
        },
    }
}

/// What has come of an installing run so far.
#[derive(Debug)]
pub struct InstallWorld {
    /// Whether the package's policy refuses the scope, or why that could not
    /// be told.
    pub refused: Option<Result<bool, Error>>,
    /// The machine holds state of this product.
    pub state_exists: bool,
    pub recovered: Option<Result<Recovery, Error>>,
    pub phase: Option<PhaseOutcome>,
    /// What the dependency phase observed is in the database.
    pub recorded: Option<Result<(), Error>>,
    /// The installation this product replaces was removed, or there was none.
    pub migrated: Option<Result<Option<LegacyInfo>, Error>>,
    /// What the database records, once it is open for this run.
    pub existing: Option<Option<InstallationRow>>,
    /// The transaction ran to an outcome.
    pub ran: Option<Result<Outcome, Error>>,
}

/// Why an installing run ends with an error.
#[derive(Debug, Clone, Copy, PartialEq, Eq, Structural)]
pub enum Fault {
    /// This executable carries no payload.
    Payload,
    Scope,
    Recovery,
    /// An explicit option the package does not take.
    Options,
    /// What the dependency phase observed could not be recorded.
    Record,
    Legacy,
    Run,
}

/// What an installing run is to do next.
#[derive(Debug, Clone, Copy, PartialEq, Eq, Structural)]
pub enum Step {
    /// The scope is to be held to the package's policy.
    ResolveScope,
    /// The scope is refused before anything is touched.
    Refuse,
    /// The open transaction is to be reconciled.
    Recover,
    /// The dependencies are to be satisfied.
    RunDependencies,
    /// What the dependency phase observed is to be recorded, in the database
    /// that is open or, where the machine held no state, in a new one.
    RecordEvents,
    /// A dependency failed: the run ends, the product untouched.
    StopAtDependency,
    /// The installation this product replaces is to be removed.
    Migrate,
    /// The database is to be read.
    OpenDatabase,
    /// The transaction is to be run.
    Reconcile(TxnKind),
    /// The outcome is to be reported.
    Report,
    Fail(Fault),
}

/// What an installing run is to do next.
pub open spec fn install_step(p: Package, o: RunOptions, w: InstallWorld) -> Step {
    if p.uninstaller_scope is Some {
        Step::Fail(Fault::Payload)
    } else {
        match w.refused {
            None => Step::ResolveScope,
            Some(Err(_)) => Step::Fail(Fault::Scope),
            Some(Ok(refused)) => if refused {
                Step::Refuse
            } else if w.state_exists && w.recovered is None {
                Step::Recover
            } else if w.recovered matches Some(Err(_)) {
                Step::Fail(Fault::Recovery)
            } else if lists::first(o.options.listed(), desired::is_refused(p.metadata)) is Some {
                Step::Fail(Fault::Options)
            } else {
                match w.phase {
                    None => Step::RunDependencies,
                    Some(phase) => if w.state_exists && w.recorded is None {
                        Step::RecordEvents
                    } else if w.recorded matches Some(Err(_)) {
                        Step::Fail(Fault::Record)
                    } else if phase.failure is Some {
                        Step::StopAtDependency
                    } else {
                        match w.migrated {
                            None => Step::Migrate,
                            Some(Err(_)) => Step::Fail(Fault::Legacy),
                            Some(Ok(_)) => match w.existing {
                                None => if w.recorded is None {
                                    Step::RecordEvents
                                } else {
                                    Step::OpenDatabase
                                },
                                Some(existing) => match intended(existing, p, o) {
                                    Intended::Nothing => Step::Report,
                                    Intended::Transaction(kind) => match w.ran {
                                        None => Step::Reconcile(kind),
                                        Some(Err(_)) => Step::Fail(Fault::Run),
                                        Some(Ok(_)) => Step::Report,
                                    },
                                },
                            },
                        }
                    },
                }
            },
        }
    }
}

fn options_refused(metadata: &Metadata, explicit: &Options) -> (r: bool)
    ensures
        r == (lists::first(explicit.listed(), desired::is_refused(*metadata)) is Some),
{
    let none = Options::new();
    desired::effective_options(metadata, &none, explicit).is_err()
}

/// What an installing run is to do next: install the package, upgrade an
/// installed different version, or reconcile the installed same version when
/// something is to change. Every path first recovers an open transaction.
pub fn install(p: &Package, o: &RunOptions, w: &InstallWorld) -> (r: Step)
    ensures
        r == install_step(*p, *o, *w),
{
    if p.uninstaller_scope.is_some() {
        return Step::Fail(Fault::Payload);
    }
    match &w.refused {
        None => {
            return Step::ResolveScope;
        },
        Some(Err(_)) => {
            return Step::Fail(Fault::Scope);
        },
        Some(Ok(refused)) => {
            if *refused {
                return Step::Refuse;
            }
        },
    }
    match &w.recovered {
        None => {
            if w.state_exists {
                return Step::Recover;
            }
        },
        Some(Err(_)) => {
            return Step::Fail(Fault::Recovery);
        },
        Some(Ok(_)) => {},
    }
    if options_refused(&p.metadata, &o.options) {
        return Step::Fail(Fault::Options);
    }
    match &w.phase {
        None => {
            return Step::RunDependencies;
        },
        Some(phase) => {
            match &w.recorded {
                None => {
                    if w.state_exists {
                        return Step::RecordEvents;
                    }
                },
                Some(Err(_)) => {
                    return Step::Fail(Fault::Record);
                },
                Some(Ok(_)) => {},
            }
            if phase.failure.is_some() {
                return Step::StopAtDependency;
            }
        },
    }
    match &w.migrated {
        None => {
            return Step::Migrate;
        },
        Some(Err(_)) => {
            return Step::Fail(Fault::Legacy);
        },
        Some(Ok(_)) => {},
    }
    match &w.existing {
        None => {
            if w.recorded.is_none() {
                Step::RecordEvents
            } else {
                Step::OpenDatabase
            }
        },
        Some(existing) => match intent(existing, p, o) {
            Intended::Nothing => Step::Report,
            Intended::Transaction(kind) => match &w.ran {
                None => Step::Reconcile(kind),
                Some(Err(_)) => Step::Fail(Fault::Run),
                Some(Ok(_)) => Step::Report,
            },
        },
    }
}

/// No transaction is run before the open one is recovered, the dependencies
/// are satisfied and the installation this product replaces is gone; so a run
/// that stops at a dependency or a migration has left the product untouched.
pub proof fn lemma_nothing_is_changed_before_the_way_is_clear(
    p: Package,
    o: RunOptions,
    w: InstallWorld,
)
    requires
        install_step(p, o, w) is Reconcile,
    ensures
        w.state_exists ==> (w.recovered matches Some(Ok(_))),
        w.refused == Some(Ok::<bool, Error>(false)),
        w.phase matches Some(phase) && phase.failure is None,
        w.migrated matches Some(Ok(_)),
        w.ran is None,
{
}

/// A run that stops at a dependency never runs a transaction, whatever came
/// of it before.
pub proof fn lemma_a_failed_dependency_stops_the_run(p: Package, o: RunOptions, w: InstallWorld)
    requires
        w.phase matches Some(phase) && phase.failure is Some,
    ensures
        !(install_step(p, o, w) is Reconcile),
        !(install_step(p, o, w) is Migrate),
        !(install_step(p, o, w) is OpenDatabase),
{
}

/// What the dependency phase observed is never lost where the machine holds
/// state: a run that stops at a dependency has recorded it first, and on a
/// machine that holds none it leaves no database behind.
pub proof fn lemma_what_dependencies_came_to_is_recorded(
    p: Package,
    o: RunOptions,
    w: InstallWorld,
)
    requires
        w.phase matches Some(phase) && phase.failure is Some,
    ensures
        install_step(p, o, w) is StopAtDependency && w.state_exists ==> (
        w.recorded matches Some(Ok(_))),
        install_step(p, o, w) is RecordEvents ==> w.state_exists,
{
}

/// What a run that finds nothing to change reports.
pub fn already_installed(lang: &str, p: &Package, row: &InstallationRow) -> (r: Outcome)
    ensures
        r.outcome@ == "installed"@,
        r.code@ == "already_installed"@,
        r.exit_code == exit::OK,
        r.message@ == told(
            lang@,
            "outcome.already_installed"@,
            about(*p, "root"@, row.install_root@),
        ),
        documents::is_bare(r),
{
    let message = human_about(
        lang,
        "outcome.already_installed",
        p,
        "root",
        row.install_root.as_str(),
    );
    Outcome::new("installed", "already_installed", exit::OK, message.as_str())
}

/// What a run that cannot go on reports.
pub fn failed(lang: &str, p: &Package, err: &Error) -> (r: Outcome)
    ensures
        r.outcome@ == "failed"@,
        r.code@ == err@.code,
        r.exit_code == error::exit_code_for(err@.code),
        r.message@ == told(lang@, "outcome.failed"@, about(*p, "reason"@, err@.message)),
        documents::is_bare(r),
{
    let message = human_about(lang, "outcome.failed", p, "reason", err.message.as_str());
    Outcome::new("failed", err.code, err.exit_code(), message.as_str())
}

/// What a run that stops at a dependency reports, with what its recovery did.
pub fn stopped_at_dependency(
    p: &Package,
    lang: &str,
    phase: &PhaseOutcome,
    failure: &dependency::Failure,
    recovery: Recovery,
) -> (r: Outcome)
    ensures
        r.outcome@ == "failed"@,
        r.code@ == failure.code@,
        r.message@ == dependency::failure_text(*p, lang@, failure@),
        r.exit_code == rebooting(
            error::exit_code_for(failure.code@),
            recovery.reboot_required,
        ),
        text::option_view(r.dependency) == Some(failure.dependency@),
        r.reason == failure.reason,
        text::views(r.dependencies@) == phase@.records,
        r.recovery == recovery.info,
        r.findings@ == recovery.findings@,
        r.actions@ == recovery.actions@,
        r.reboot_required == recovery.reboot_required,
        exists|bare: Outcome| #[trigger]
            documents::is_bare(bare) && r == (Outcome {
                dependency: r.dependency,
                reason: r.reason,
                dependencies: r.dependencies,
                recovery: r.recovery,
                findings: r.findings,
                actions: r.actions,
                reboot_required: r.reboot_required,
                ..bare
            }),
{
    let mut outcome = dependency::failure_outcome(p, lang, phase, failure);
    let ghost failed = outcome;
    with_recovery(&mut outcome, recovery);
    proof {
        let bare = choose|bare: Outcome| #[trigger]
            documents::is_bare(bare) && failed == (Outcome {
                dependency: failed.dependency,
                reason: failed.reason,
                dependencies: failed.dependencies,
                ..bare
            });
        assert(documents::is_bare(
            Outcome {
                outcome: outcome.outcome,
                code: outcome.code,
                exit_code: outcome.exit_code,
                message: outcome.message,
                ..bare
            },
        ));
    }
    assert(outcome.findings@ =~= recovery.findings@);
    assert(outcome.actions@ =~= recovery.actions@);
    outcome
}

/// What a commit that left no installation is reported with.
pub open spec fn left_nothing() -> ErrorView {
    ErrorView { code: "journal_inconsistent"@, message: "commit left no installation"@ }
}

/// Attaches the installation to an outcome that says there is one; an outcome
/// that says so where the database records none is refused.
pub fn with_installation(
    outcome: &mut Outcome,
    row: &Option<InstallationRow>,
    files: u64,
    state_db: &str,
) -> (r: Result<(), Error>)
    ensures
        *final(outcome) == (Outcome { installation: final(outcome).installation, ..*old(outcome) }),
        if old(outcome).outcome@ == "installed"@ {
            match *row {
                Some(row) => r is Ok && (final(outcome).installation matches Some(info)
                    && verify::describes(info, row, files, state_db@)),
                None => (r matches Err(e) && e@ == left_nothing()) && final(outcome).installation
                    == old(outcome).installation,
            }
        } else {
            r is Ok && final(outcome).installation == old(outcome).installation
        },
{
    if text::same(outcome.outcome, "installed") {
        match row {
            Some(row) => {
                outcome.installation = Some(verify::installation_info(row, files, state_db));
            },
            None => {
                return Err(Error::new("journal_inconsistent", "commit left no installation"));
            },
        }
    }
    Ok(())
}

/// Reports an installing run: what it removed before, what its recovery did and
/// what its dependencies came to.
pub fn report_install(
    outcome: Outcome,
    legacy: Option<LegacyInfo>,
    recovery: Recovery,
    phase: &PhaseOutcome,
) -> (r: Outcome)
    ensures
        r == (Outcome {
            legacy: r.legacy,
            recovery: r.recovery,
            findings: r.findings,
            actions: r.actions,
            dependencies: r.dependencies,
            reboot_required: r.reboot_required,
            exit_code: r.exit_code,
            ..outcome
        }),
        r.legacy == legacy,
        r.recovery == recovery.info,
        r.findings@ == recovery.findings@ + outcome.findings@,
        r.actions@ == recovery.actions@ + outcome.actions@,
        text::views(r.dependencies@) == phase@.records,
        r.reboot_required == (outcome.reboot_required || recovery.reboot_required
            || phase.reboot_required),
        r.exit_code == rebooting(outcome.exit_code, r.reboot_required),
{
    let mut outcome = outcome;
    outcome.legacy = legacy;
    with_recovery(&mut outcome, recovery);
    dependency::attach(&mut outcome, phase);
    outcome
}

/// What an upgrade is told with.
pub open spec fn upgrade_values(p: Package, from: Seq<char>, root: Seq<char>) -> Seq<
    (Seq<char>, Seq<char>),
> {
    seq![
        ("name"@, p.metadata.package.name@),
        ("from"@, from),
        ("version"@, p.metadata.package.version@),
        ("root"@, root),
    ]
}

/// Completes the outcome of a transaction: the applications the run closed,
/// what planning found ahead of what the transaction found, and for an upgrade
/// its own words.
pub fn complete(
    outcome: Outcome,
    closed: Vec<HolderInfo>,
    planned: Vec<Finding>,
    lang: &str,
    p: &Package,
    kind: TxnKind,
    from: &str,
    root: &str,
) -> (r: Outcome)
    ensures
        r == (Outcome {
            closed_applications: closed,
            findings: r.findings,
            message: r.message,
            ..outcome
        }),
        r.findings@ == planned@ + outcome.findings@,
        r.message@ == if outcome.outcome@ == "installed"@ && kind == TxnKind::Upgrade {
            told(lang@, "outcome.upgraded"@, upgrade_values(*p, from@, root@))
        } else {
            outcome.message@
        },
{
    let mut outcome = outcome;
    outcome.closed_applications = closed;
    let mut findings = planned;
    findings.append(&mut outcome.findings);
    outcome.findings = findings;
    if text::same(outcome.outcome, "installed") && matches!(kind, TxnKind::Upgrade) {
        let values: [(&str, &str); 4] = [
            ("name", p.name()),
            ("from", from),
            ("version", p.version()),
            ("root", root),
        ];
        assert(i18n::pairs(values@) =~= upgrade_values(*p, from@, root@));
        outcome.message = human(lang, "outcome.upgraded", &values);
    }
    outcome
}

/// Reports a repair: one of the installed version has its own words.
pub fn report_repair(
    outcome: Outcome,
    kind: TxnKind,
    lang: &str,
    p: &Package,
    root: &str,
    recovery: Recovery,
) -> (r: Outcome)
    ensures
        r == (Outcome {
            message: r.message,
            recovery: r.recovery,
            findings: r.findings,
            actions: r.actions,
            reboot_required: r.reboot_required,
            exit_code: r.exit_code,
            ..outcome
        }),
        r.message@ == if outcome.outcome@ == "installed"@ && kind == TxnKind::Repair {
            told(lang@, "outcome.repaired"@, about(*p, "root"@, root@))
        } else {
            outcome.message@
        },
        r.recovery == recovery.info,
        r.findings@ == recovery.findings@ + outcome.findings@,
        r.actions@ == recovery.actions@ + outcome.actions@,
        r.reboot_required == (outcome.reboot_required || recovery.reboot_required),
        r.exit_code == rebooting(outcome.exit_code, recovery.reboot_required),
{
    let mut outcome = outcome;
    if text::same(outcome.outcome, "installed") && matches!(kind, TxnKind::Repair) {
        outcome.message = human_about(lang, "outcome.repaired", p, "root", root);
    }
    with_recovery(&mut outcome, recovery);
    outcome
}

/// What has come of a repair or an uninstall so far.
#[derive(Debug)]
pub struct OwnWorld {
    pub recovered: Option<Result<Recovery, Error>>,
    /// What the database records, once the recovery is done.
    pub existing: Option<Option<InstallationRow>>,
    /// The transaction ran to an outcome.
    pub ran: Option<Result<Outcome, Error>>,
}

/// What a repair or an uninstall is to do next.
#[derive(Debug, Clone, Copy, PartialEq, Eq, Structural)]
pub enum OwnStep {
    /// The open transaction is to be reconciled.
    Recover,
    /// The database is to be read.
    Read,
    /// The transaction is to be run.
    Transact(TxnKind),
    /// The outcome is to be reported.
    Report,
    /// Nothing is installed.
    NotInstalled,
    FailedRecovery,
    FailedRun,
    NoPayload,
}

/// What a repair is to do next.
pub open spec fn repair_step(p: Package, w: OwnWorld) -> OwnStep {
    if p.uninstaller_scope is Some {
        OwnStep::NoPayload
    } else {
        own_step(
            w,
            match w.existing {
                Some(Some(row)) => if row.version@ == p.metadata.package.version@ {
                    TxnKind::Repair
                } else {
                    TxnKind::Upgrade
                },
                _ => TxnKind::Repair,
            },
        )
    }
}

/// What a run on what is installed is to do next.
pub open spec fn own_step(w: OwnWorld, kind: TxnKind) -> OwnStep {
    match w.recovered {
        None => OwnStep::Recover,
        Some(Err(_)) => OwnStep::FailedRecovery,
        Some(Ok(_)) => match w.existing {
            None => OwnStep::Read,
            Some(None) => OwnStep::NotInstalled,
            Some(Some(_)) => match w.ran {
                None => OwnStep::Transact(kind),
                Some(Err(_)) => OwnStep::FailedRun,
                Some(Ok(_)) => OwnStep::Report,
            },
        },
    }
}

fn own_step_of(w: &OwnWorld, kind: TxnKind) -> (r: OwnStep)
    ensures
        r == own_step(*w, kind),
{
    match &w.recovered {
        None => OwnStep::Recover,
        Some(Err(_)) => OwnStep::FailedRecovery,
        Some(Ok(_)) => match &w.existing {
            None => OwnStep::Read,
            Some(None) => OwnStep::NotInstalled,
            Some(Some(_)) => match &w.ran {
                None => OwnStep::Transact(kind),
                Some(Err(_)) => OwnStep::FailedRun,
                Some(Ok(_)) => OwnStep::Report,
            },
        },
    }
}

/// What a repair is to do next. Repair is not a second installer engine; it is
/// the same reconciliation with the same journal.
pub fn repair(p: &Package, w: &OwnWorld) -> (r: OwnStep)
    ensures
        r == repair_step(*p, *w),
{
    if p.uninstaller_scope.is_some() {
        return OwnStep::NoPayload;
    }
    let kind = match &w.existing {
        Some(Some(row)) => if text::same(row.version.as_str(), p.version()) {
            TxnKind::Repair
        } else {
            TxnKind::Upgrade
        },
        _ => TxnKind::Repair,
    };
    own_step_of(w, kind)
}

/// What an uninstall is to do next: recover an open transaction, then remove
/// what is owned; an absent installation is the desired state already.
pub fn uninstall(w: &OwnWorld) -> (r: OwnStep)
    ensures
        r == own_step(*w, TxnKind::Uninstall),
{
    own_step_of(w, TxnKind::Uninstall)
}

/// Every run on what is installed recovers an open transaction before it runs
/// its own.
pub proof fn lemma_an_open_transaction_is_recovered_first(w: OwnWorld, kind: TxnKind)
    ensures
        own_step(w, kind) is Transact ==> (w.recovered matches Some(Ok(_))) && (
        w.existing matches Some(Some(_))) && w.ran is None,
{
}

/// What an uninstall that finds nothing reports: it is no failure.
pub fn not_installed(lang: &str, p: &Package, recovery: Recovery) -> (r: Outcome)
    ensures
        r.outcome@ == "not_installed"@,
        r.code@ == "not_installed"@,
        r.exit_code == rebooting(exit::OK, recovery.reboot_required),
        r.message@ == told(
            lang@,
            "outcome.not_installed"@,
            seq![("name"@, p.metadata.package.name@)],
        ),
        r.recovery == recovery.info,
        r.findings@ == recovery.findings@,
        r.actions@ == recovery.actions@,
        r.reboot_required == recovery.reboot_required,
        exists|bare: Outcome| #[trigger]
            documents::is_bare(bare) && r == (Outcome {
                recovery: r.recovery,
                findings: r.findings,
                actions: r.actions,
                reboot_required: r.reboot_required,
                ..bare
            }),
{
    let values: [(&str, &str); 1] = [("name", p.name())];
    assert(i18n::pairs(values@) =~= seq![("name"@, p.metadata.package.name@)]);
    let message = human(lang, "outcome.not_installed", &values);
    let mut outcome = Outcome::new("not_installed", "not_installed", exit::OK, message.as_str());
    let ghost bare = outcome;
    with_recovery(&mut outcome, recovery);
    assert(documents::is_bare(Outcome { exit_code: outcome.exit_code, ..bare }));
    assert(outcome.findings@ =~= recovery.findings@);
    assert(outcome.actions@ =~= recovery.actions@);
    outcome
}

/// What an uninstall is told with.
pub open spec fn uninstall_values(p: Package, row: InstallationRow) -> Seq<(Seq<char>, Seq<char>)> {
    seq![
        ("name"@, p.metadata.package.name@),
        ("version"@, row.version@),
        ("root"@, row.install_root@),
    ]
}

/// Reports an uninstall. A transaction that committed reads `installed` until
/// it is named here; then, and only then, the state directory goes too.
pub fn report_uninstall(
    outcome: Outcome,
    lang: &str,
    p: &Package,
    row: &InstallationRow,
    recovery: Recovery,
) -> (r: (Outcome, bool))
    ensures
        r.1 == (outcome.outcome@ == "installed"@),
        r.0.outcome@ == if r.1 {
            "uninstalled"@
        } else {
            outcome.outcome@
        },
        r.0.message@ == if r.1 {
            told(lang@, "outcome.uninstalled"@, uninstall_values(*p, *row))
        } else {
            outcome.message@
        },
        r.0 == (Outcome {
            outcome: r.0.outcome,
            message: r.0.message,
            recovery: r.0.recovery,
            findings: r.0.findings,
            actions: r.0.actions,
            reboot_required: r.0.reboot_required,
            exit_code: r.0.exit_code,
            ..outcome
        }),
        r.0.recovery == recovery.info,
        r.0.findings@ == recovery.findings@ + outcome.findings@,
        r.0.actions@ == recovery.actions@ + outcome.actions@,
        r.0.reboot_required == (outcome.reboot_required || recovery.reboot_required),
        r.0.exit_code == rebooting(outcome.exit_code, recovery.reboot_required),
{
    let mut outcome = outcome;
    with_recovery(&mut outcome, recovery);
    if !text::same(outcome.outcome, "installed") {
        return (outcome, false);
    }
    let values: [(&str, &str); 3] = [
        ("name", p.name()),
        ("version", row.version.as_str()),
        ("root", row.install_root.as_str()),
    ];
    assert(i18n::pairs(values@) =~= uninstall_values(*p, *row));
    outcome.outcome = "uninstalled";
    outcome.message = human(lang, "outcome.uninstalled", &values);
    (outcome, true)
}

/// Whether a file name has a dot that does not start it.
pub open spec fn has_inner_dot(name: Seq<char>) -> bool {
    exists|i: int| 0 < i < name.len() && #[trigger] name[i] == '.'
}

/// What stands in front of the last dot of a file name that does not start it.
pub open spec fn stem(name: Seq<char>) -> Seq<char>
    decreases name.len(),
{
    if !has_inner_dot(name) {
        name
    } else if name.last() == '.' {
        name.drop_last()
    } else {
        stem(name.drop_last())
    }
}

/// What stands in front of the last dot of a file name that does not start it.
pub fn stem_of(name: &str) -> (r: String)
    ensures
        r@ == stem(name@),
{
    let v = text::chars_of(name);
    let mut n: usize = v.len();
    assert(v@.take(n as int) =~= v@);
    while n > 1 && v[n - 1] != '.'
        invariant
            n <= v@.len(),
            v@ == name@,
            forall|i: int| n <= i < v@.len() ==> #[trigger] v@[i] != '.',
        decreases n,
    {
        n = n - 1;
    }
    if n > 1 {
        let head = text::slice_of(&v, 0, n - 1);
        proof {
            lemma_stem(v@, n - 1);
            assert(head@ =~= v@.take(n - 1));
        }
        text::string_of(&head)
    } else {
        text::owned(name)
    }
}

proof fn lemma_stem(name: Seq<char>, at: int)
    requires
        0 < at < name.len(),
        name[at] == '.',
        forall|i: int| at < i < name.len() ==> #[trigger] name[i] != '.',
    ensures
        stem(name) == name.take(at),
    decreases name.len(),
{
    if at == name.len() - 1 {
        assert(name.drop_last() =~= name.take(at));
    } else {
        let init = name.drop_last();
        assert(init[at] == '.');
        assert forall|i: int| at < i < init.len() implies #[trigger] init[i] != '.' by {
            assert(init[i] == name[i]);
        }
        lemma_stem(init, at);
        assert(init.take(at) =~= name.take(at));
    }
}

/// Where a temporary copy of the uninstaller moves the executable it was
/// copied from. A running executable can be renamed but not deleted, so the
/// copy moves it out of the state directory before removing that directory.
pub fn origin_aside_path(copy: &str, machine: &Machine) -> (r: String)
    ensures
        r@ == target::joined(
            package::temporary(*machine),
            stem(target::file_name(copy@)) + "-origin.exe"@,
        ),
{
    let name = target::file_name_of(copy);
    let stem = stem_of(name.as_str());
    let aside = text::cat2(stem.as_str(), "-origin.exe");
    let temp = package::temp_directory(machine);
    target::join(temp.as_str(), aside.as_str())
}

/// Whether the executable a run was started from has to be moved aside before
/// the state directory goes: it is there, and lies in it.
pub open spec fn moves_aside(origin: Seq<char>, state_dir: Seq<char>, is_there: bool) -> bool {
    is_there && paths::parts(state_dir).is_prefix_of(paths::parts(origin))
}

/// What is to be done to remove the state directory — database, logs, staging
/// and the uninstaller copy — once an uninstall has committed: where the
/// running executable goes first, if it has to.
pub fn remove_state_directory(
    relaunched_from: Option<&str>,
    running: &str,
    state_dir: &str,
    is_there: bool,
    machine: &Machine,
) -> (r: Option<(String, String)>)
    ensures
        ({
            let origin = match relaunched_from {
                Some(from) => from@,
                None => running@,
            };
            match r {
                None => !moves_aside(origin, state_dir@, is_there),
                Some((from, to)) => {
                    &&& moves_aside(origin, state_dir@, is_there)
                    &&& from@ == origin
                    &&& to@ == target::joined(
                        package::temporary(*machine),
                        stem(target::file_name(running@)) + "-origin.exe"@,
                    )
                },
            }
        }),
{
    let origin = match relaunched_from {
        Some(from) => from,
        None => running,
    };
    if is_there && paths::starts_with(origin, state_dir) {
        Some((text::owned(origin), origin_aside_path(running, machine)))
    } else {
        None
    }
}

/// What the log says of a firewall store a run may not write: rules are
/// machine-wide and need an administrator.
pub fn firewall_store(writable: bool) -> (r: Option<Event>)
    ensures
        match r {
            None => writable,
            Some(e) => !writable && e.code@ == "firewall_store_read_only"@ && e.message@
                == "this process is not elevated; firewall rules are neither created nor removed"@
                && e.progress is None,
        },
{
    if writable {
        None
    } else {
        Some(
            Event {
                code: "firewall_store_read_only",
                message: text::owned(
                    "this process is not elevated; firewall rules are neither created nor removed",
                ),
                progress: None,
            },
        )
    }
}

}
