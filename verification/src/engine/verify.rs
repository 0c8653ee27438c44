//! Comparing the owned state in the database with the machine. Never mutates,
//! so it reports what it observes and leaves every decision about what to do
//! to a mutating run.

use vstd::prelude::*;

use crate::engine::checks;
use crate::engine::checks::Mark;
use crate::engine::package;
use crate::engine::package::{Package, Roots, RootsView, RunOptions};
use crate::error::{Error, ErrorView};
use crate::lists;
use crate::machine;
use crate::machine::{KeyPath, Machine};
use crate::metadata::{Metadata, OptionView, Scope};
use crate::plan::desired;
use crate::report::documents::{
    InstallationInfo, IntegrationStatus, TransactionInfo, VerifyCounts, VerifyReport, SCHEMA,
};
use crate::report::{finding, Finding, FindingView};
use crate::resource::integration;
use crate::resource::integration::IntegrationView;
use crate::resource::predicate::Options;
use crate::scope;
use crate::state::installation::{InstallationRow, Owned};
use crate::state::journal::TransactionRow;
use crate::text;

verus! {

/// What the state database of an installation holds.
#[derive(Debug)]
pub struct State {
    /// The transaction that is not over, with the direction a recovery would
    /// take.
    pub open: Option<(TransactionRow, &'static str)>,
    pub installation: Option<InstallationRow>,
    pub owned: Owned,
    /// The recorded installer options.
    pub options: Options,
    pub file_count: u64,
}

/// Whether a failure to open the state database is one a read-only command
/// reports as a finding rather than as an error of its own.
pub open spec fn is_unreadable(e: ErrorView) -> bool {
    e.code == "database_busy"@ || e.code == "state_unreadable"@
}

/// Whether a failure to open the state database is one a read-only command
/// reports as a finding rather than as an error of its own.
pub fn unreadable_state(err: &Error) -> (r: bool)
    ensures
        r == is_unreadable(err@),
{
    text::same(err.code, "database_busy") || text::same(err.code, "state_unreadable")
}

/// Whether a document describes an installation.
pub open spec fn describes(i: InstallationInfo, row: InstallationRow, files: u64, state_db: Seq<char>) -> bool {
    &&& i.id@ == row.id@
    &&& i.product_id@ == row.product_id@
    &&& i.version@ == row.version@
    &&& i.scope@ == row.scope@
    &&& i.install_root@ == row.install_root@
    &&& i.state_db@ == state_db
    &&& i.file_count == files
    &&& i.committed_at@ == row.committed_at@
    &&& text::option_view(i.accepted_license_sha256) == text::option_view(
        row.accepted_license_sha256,
    )
}

/// The document that describes an installation.
pub fn installation_info(row: &InstallationRow, files: u64, state_db: &str) -> (r: InstallationInfo)
    ensures
        describes(r, *row, files, state_db@),
{
    InstallationInfo {
        id: row.id.clone(),
        product_id: row.product_id.clone(),
        version: row.version.clone(),
        scope: row.scope.clone(),
        install_root: row.install_root.clone(),
        state_db: text::owned(state_db),
        file_count: files,
        committed_at: row.committed_at.clone(),
        accepted_license_sha256: row.accepted_license_sha256.clone(),
    }
}

/// Whether a document describes a transaction.
pub open spec fn tells(i: TransactionInfo, txn: TransactionRow, direction: Option<&'static str>) -> bool {
    &&& i.id@ == txn.id@
    &&& i.kind@ == txn.kind.name()
    &&& i.state@ == txn.state.name()
    &&& text::option_view(i.from_version) == text::option_view(txn.from_version)
    &&& text::option_view(i.to_version) == text::option_view(txn.to_version)
    &&& i.recovery_direction == direction
}

/// The document that describes a transaction.
pub fn transaction_info(txn: &TransactionRow, direction: Option<&'static str>) -> (r: TransactionInfo)
    ensures
        tells(r, *txn, direction),
{
    TransactionInfo {
        id: txn.id.clone(),
        kind: txn.kind.as_str(),
        state: txn.state.as_str(),
        from_version: txn.from_version.clone(),
        to_version: txn.to_version.clone(),
        recovery_direction: direction,
    }
}

/// What checking everything an installation owns came to.
#[verifier::ext_equal]
pub struct Marks {
    pub files: Seq<Mark>,
    pub directories: Seq<Mark>,
    pub values: Seq<Mark>,
    pub entries: Seq<Mark>,
    pub shortcuts: Seq<Mark>,
    pub variables: Seq<Mark>,
    pub rules: Seq<Mark>,
    pub programs: Seq<Mark>,
}

/// What checking everything an installation owns comes to, or the first
/// record that does not read.
pub open spec fn marks(
    owned: Owned,
    root: Seq<char>,
    state_dir: Seq<char>,
    machine: Machine,
) -> Result<Marks, ErrorView> {
    let key = text::option_view(owned.registration_key);
    match (
        lists::all(owned.files@.map_values(checks::file_mark(root, machine))),
        lists::all(owned.directories@.map_values(checks::directory_mark(root, machine))),
        lists::all(owned.registry_values@.map_values(checks::value_mark(key, machine))),
        lists::all(owned.path_entries@.map_values(checks::entry_mark(machine))),
        lists::all(owned.shortcuts@.map_values(checks::shortcut_mark(machine))),
        lists::all(owned.environment_variables@.map_values(checks::variable_mark(machine))),
        lists::all(owned.firewall_rules@.map_values(checks::rule_mark(machine))),
        lists::all(owned.actions@.map_values(checks::program_mark(state_dir, machine))),
    ) {
        (
            Ok(files),
            Ok(directories),
            Ok(values),
            Ok(entries),
            Ok(shortcuts),
            Ok(variables),
            Ok(rules),
            Ok(programs),
        ) => Ok(
            Marks { files, directories, values, entries, shortcuts, variables, rules, programs },
        ),
        (Err(e), _, _, _, _, _, _, _) => Err(e),
        (_, Err(e), _, _, _, _, _, _) => Err(e),
        (_, _, Err(e), _, _, _, _, _) => Err(e),
        (_, _, _, Err(e), _, _, _, _) => Err(e),
        (_, _, _, _, Err(e), _, _, _) => Err(e),
        (_, _, _, _, _, Err(e), _, _) => Err(e),
        (_, _, _, _, _, _, Err(e), _) => Err(e),
        (_, _, _, _, _, _, _, Err(e)) => Err(e),
    }
}

/// The finding about an Add/Remove Programs key that is gone.
pub open spec fn unregistered(owned: Owned, machine: Machine) -> Seq<FindingView> {
    match owned.registration_key {
        None => Seq::empty(),
        Some(key) => match machine::parsed_key(key@) {
            Some(parsed) => if machine.has_key(parsed) {
                Seq::empty()
            } else {
                seq![finding("registration_missing"@, key@)]
            },
            None => Seq::empty(),
        },
    }
}

/// Everything that was found wrong, resource kind by resource kind.
pub open spec fn all_wrong(m: Marks, owned: Owned, machine: Machine) -> Seq<FindingView> {
    checks::wrong(m.files) + checks::wrong(m.directories) + unregistered(owned, machine)
        + checks::wrong(m.values) + checks::wrong(m.entries) + checks::wrong(m.shortcuts)
        + checks::wrong(m.variables) + checks::wrong(m.rules) + checks::wrong(m.programs)
}

/// Whether counts are those of what was checked.
pub open spec fn counted(c: VerifyCounts, m: Marks, owned: Owned) -> bool {
    let kinds = owned.registry_values@.map_values(
        checks::registering(text::option_view(owned.registration_key)),
    );
    let registration = checks::of_kind(m.values, kinds, true);
    let registry = checks::of_kind(m.values, kinds, false);
    &&& c.files_checked == checks::checked(m.files)
    &&& c.files_ok == checks::fine(m.files)
    &&& c.directories_checked == checks::checked(m.directories)
    &&& c.directories_ok == checks::fine(m.directories)
    &&& c.registration_values_checked == checks::checked(registration)
    &&& c.registration_values_ok == checks::fine(registration)
    &&& c.registry_values_checked == checks::checked(registry)
    &&& c.registry_values_ok == checks::fine(registry)
    &&& c.path_entries_checked == checks::checked(m.entries)
    &&& c.path_entries_ok == checks::fine(m.entries)
    &&& c.shortcuts_checked == checks::checked(m.shortcuts)
    &&& c.shortcuts_ok == checks::fine(m.shortcuts)
    &&& c.environment_variables_checked == checks::checked(m.variables)
    &&& c.environment_variables_ok == checks::fine(m.variables)
    &&& c.firewall_rules_checked == checks::checked(m.rules)
    &&& c.firewall_rules_ok == checks::fine(m.rules)
    &&& c.action_programs_checked == checks::checked(m.programs)
    &&& c.action_programs_ok == checks::fine(m.programs)
}

/// What an [`IntegrationStatus`] says.
#[verifier::ext_equal]
pub struct StatusView {
    pub kind: Seq<char>,
    pub id: Seq<char>,
    pub enabled: bool,
    pub values_total: nat,
    pub values_present: nat,
    pub values_owned: nat,
}

impl View for IntegrationStatus {
    type V = StatusView;

    open spec fn view(&self) -> StatusView {
        StatusView {
            kind: self.kind@,
            id: self.id@,
            enabled: self.enabled,
            values_total: self.values_total as nat,
            values_present: self.values_present as nat,
            values_owned: self.values_owned as nat,
        }
    }
}

/// The status of an integration on a machine.
pub open spec fn status_of(machine: Machine, owned: Owned) -> spec_fn(IntegrationView) -> StatusView {
    |i: IntegrationView|
        StatusView {
            kind: i.kind,
            id: i.id,
            enabled: i.enabled,
            values_total: i.values.len(),
            values_present: i.values.filter(integration::is_there(machine)).len(),
            values_owned: i.values.filter(integration::is_owned(owned)).len(),
        }
}

/// Whether a package declares an integration.
pub open spec fn integrates(m: Metadata) -> bool {
    m.file_associations@.len() > 0 || m.url_protocols@.len() > 0 || m.app_paths@.len() > 0
        || m.context_menu_verbs@.len() > 0
}

/// The declared integrations as a machine holds them: compiled against the
/// recorded options — completed with the package's defaults, so an option a
/// newer package added reads as its default — and the recorded install root,
/// then read back.
pub open spec fn statuses(
    m: Metadata,
    row: InstallationRow,
    owned: Owned,
    recorded: Map<Seq<char>, OptionView>,
    machine: Machine,
) -> Result<Seq<StatusView>, ErrorView> {
    match Scope::named(row.scope@) {
        Some(scope) => if integrates(m) {
            match integration::compiled(
                m,
                desired::effective(m.options@, recorded, Map::empty()),
                scope::software_root(scope),
                row.install_root@,
                machine,
                owned,
            ) {
                Ok((items, _)) => Ok(items.map_values(status_of(machine, owned))),
                Err(e) => Err(e),
            }
        } else {
            Ok(Seq::empty())
        },
        None => Ok(Seq::empty()),
    }
}

/// The declared integrations as a machine holds them for an installed product.
/// `enabled` is what the options say; the counts are what the registry says.
pub fn integration_statuses(
    metadata: &Metadata,
    row: &InstallationRow,
    owned: &Owned,
    recorded: &Options,
    machine: &Machine,
) -> (r: Result<Vec<IntegrationStatus>, Error>)
    ensures
        match (r, statuses(*metadata, *row, *owned, recorded@, *machine)) {
            (Ok(a), Ok(b)) => text::views(a@) == b,
            (Err(a), Err(b)) => a@ == b,
            _ => false,
        },
{
    let mut out: Vec<IntegrationStatus> = Vec::new();
    assert(text::views(out@) =~= Seq::<StatusView>::empty());
    if metadata.file_associations.len() == 0 && metadata.url_protocols.len() == 0
        && metadata.app_paths.len() == 0 && metadata.context_menu_verbs.len() == 0 {
        return Ok(out);
    }
    let scope = match Scope::parse(row.scope.as_str()) {
        Some(scope) => scope,
        None => {
            return Ok(out);
        },
    };
    let none = Options::new();
    let effective = desired::effective_options(metadata, recorded, &none)?;
    let locations = scope::locations(scope);
    let compiled = integration::desired(
        metadata,
        &effective,
        &locations,
        row.install_root.as_str(),
        machine,
        owned,
    )?;
    let ghost items = text::views(compiled.items@);
    let ghost all = items.map_values(status_of(*machine, *owned));
    let mut i: usize = 0;
    assert(text::views(out@) =~= all.take(0));
    while i < compiled.items.len()
        invariant
            i <= compiled.items@.len(),
            items == text::views(compiled.items@),
            all == items.map_values(status_of(*machine, *owned)),
            text::views(out@) == all.take(i as int),
        decreases compiled.items@.len() - i,
    {
        let item = &compiled.items[i];
        assert(items[i as int] == item@);
        let presence = integration::presence(item, machine, owned);
        let status = IntegrationStatus {
            kind: item.kind,
            id: item.id.clone(),
            enabled: item.enabled,
            values_total: presence.values_total,
            values_present: presence.values_present,
            values_owned: presence.values_owned,
        };
        proof {
            assert(status@ =~= all[i as int]);
            text::lemma_views_push(out@, status);
            assert(all.take(i + 1) =~= all.take(i as int).push(status@));
        }
        out.push(status);
        i = i + 1;
    }
    assert(all.take(i as int) =~= all);
    Ok(out)
}

fn nothing() -> (r: VerifyReport)
    ensures
        r.schema == SCHEMA,
        r.status@ == "not_installed"@,
        r.installation is None,
        r.transaction is None,
        r.findings@.len() == 0,
        is_zero(r.counts),
        r.integrations@.len() == 0,
{
    VerifyReport {
        schema: SCHEMA,
        status: "not_installed",
        installation: None,
        transaction: None,
        findings: Vec::new(),
        counts: VerifyCounts {
            files_checked: 0,
            files_ok: 0,
            directories_checked: 0,
            directories_ok: 0,
            registry_values_checked: 0,
            registry_values_ok: 0,
            path_entries_checked: 0,
            path_entries_ok: 0,
            shortcuts_checked: 0,
            shortcuts_ok: 0,
            registration_values_checked: 0,
            registration_values_ok: 0,
            environment_variables_checked: 0,
            environment_variables_ok: 0,
            firewall_rules_checked: 0,
            firewall_rules_ok: 0,
            action_programs_checked: 0,
            action_programs_ok: 0,
        },
        integrations: Vec::new(),
    }
}

/// Whether nothing was counted.
pub open spec fn is_zero(c: VerifyCounts) -> bool {
    &&& c.files_checked == 0 && c.files_ok == 0
    &&& c.directories_checked == 0 && c.directories_ok == 0
    &&& c.registry_values_checked == 0 && c.registry_values_ok == 0
    &&& c.path_entries_checked == 0 && c.path_entries_ok == 0
    &&& c.shortcuts_checked == 0 && c.shortcuts_ok == 0
    &&& c.registration_values_checked == 0 && c.registration_values_ok == 0
    &&& c.environment_variables_checked == 0 && c.environment_variables_ok == 0
    &&& c.firewall_rules_checked == 0 && c.firewall_rules_ok == 0
    &&& c.action_programs_checked == 0 && c.action_programs_ok == 0
}

/// Whether a report says no more than its status.
pub open spec fn says_only(r: VerifyReport, status: Seq<char>) -> bool {
    &&& r.schema == SCHEMA
    &&& r.status@ == status
    &&& r.installation is None
    &&& r.transaction is None
    &&& r.findings@.len() == 0
    &&& is_zero(r.counts)
    &&& r.integrations@.len() == 0
}

/// Whether a report tells of an open transaction.
pub open spec fn tells_open(r: VerifyReport, state: State, state_db: Seq<char>) -> bool {
    &&& r.schema == SCHEMA
    &&& r.status@ == "transaction_open"@
    &&& state.open matches Some((txn, direction))
    &&& r.transaction matches Some(told)
    &&& tells(told, txn, Some(direction))
    &&& match (state.installation, r.installation) {
        (Some(row), Some(info)) => describes(info, row, state.file_count, state_db),
        (None, None) => true,
        _ => false,
    }
    &&& r.findings@.len() == 0
    &&& is_zero(r.counts)
    &&& r.integrations@.len() == 0
}

/// Whether a report tells of an installation that was checked.
pub open spec fn tells_checked(
    r: VerifyReport,
    row: InstallationRow,
    state: State,
    m: Marks,
    integrations: Seq<StatusView>,
    state_db: Seq<char>,
    machine: Machine,
) -> bool {
    &&& r.schema == SCHEMA
    &&& r.installation matches Some(info)
    &&& describes(info, row, state.file_count, state_db)
    &&& r.transaction is None
    &&& text::views(r.findings@) == all_wrong(m, state.owned, machine)
    &&& r.status@ == if r.findings@.len() == 0 {
        "ok"@
    } else {
        "failed"@
    }
    &&& counted(r.counts, m, state.owned)
    &&& text::views(r.integrations@) == integrations
}

/// Whether a result is what checking an installation comes to: a database
/// another run holds, or one this process may not read, is reported as a
/// finding; one that is not there says that nothing is installed; an open
/// transaction is reported and nothing is compared.
pub open spec fn is_report(
    r: Result<VerifyReport, Error>,
    m: Metadata,
    roots: RootsView,
    database: Result<Option<State>, Error>,
    machine: Machine,
) -> bool {
    match database {
        Err(e) => if is_unreadable(e@) {
            r matches Ok(report) && report.schema == SCHEMA && report.status@ == "failed"@
                && report.installation is None && report.transaction is None && text::views(
                report.findings@,
            ) == seq![
                FindingView { code: e@.code, path: None, detail: Some(e@.message) },
            ] && is_zero(report.counts) && report.integrations@.len() == 0
        } else {
            r matches Err(x) && x@ == e@
        },
        Ok(None) => r matches Ok(report) && says_only(report, "not_installed"@),
        Ok(Some(state)) => if state.open is Some {
            r matches Ok(report) && tells_open(report, state, roots.state_db)
        } else {
            match state.installation {
                None => r matches Ok(report) && says_only(report, "not_installed"@),
                Some(row) => match marks(
                    state.owned,
                    row.install_root@,
                    roots.state_dir,
                    machine,
                ) {
                    Err(e) => r matches Err(x) && x@ == e,
                    Ok(found) => match statuses(m, row, state.owned, state.options@, machine) {
                        Err(e) => r matches Err(x) && x@ == e,
                        Ok(integrations) => r matches Ok(report) && tells_checked(
                            report,
                            row,
                            state,
                            found,
                            integrations,
                            roots.state_db,
                            machine,
                        ),
                    },
                },
            }
        },
    }
}

fn check_registration(owned: &Owned, machine: &Machine, findings: &mut Vec<Finding>)
    ensures
        text::views(final(findings)@) == text::views(old(findings)@) + unregistered(
            *owned,
            *machine,
        ),
{
    let ghost had = text::views(findings@);
    match &owned.registration_key {
        Some(key) => match KeyPath::parse(key.as_str()) {
            Ok(parsed) => {
                if !machine.key_exists(&parsed) {
                    let f = Finding::named("registration_missing", key.as_str());
                    proof {
                        text::lemma_views_push(findings@, f);
                    }
                    findings.push(f);
                }
            },
            Err(_) => {},
        },
        None => {},
    }
    assert(text::views(findings@) =~= had + unregistered(*owned, *machine));
}

/// Compares the owned state in the database with the machine.
pub fn verify(
    package: &Package,
    options: &RunOptions,
    database: &Result<Option<State>, Error>,
    machine: &Machine,
) -> (r: Result<VerifyReport, Error>)
    ensures
        match package::resolved(*package, *options, *machine) {
            Ok(roots) => is_report(r, package.metadata, roots, *database, *machine),
            Err(e) => (r matches Err(x) && x@ == e),
        },
{
    let roots = package::resolve_roots(package, options, machine)?;
    verify_at(package, &roots, database, machine)
}

fn verify_at(
    package: &Package,
    roots: &Roots,
    database: &Result<Option<State>, Error>,
    machine: &Machine,
) -> (r: Result<VerifyReport, Error>)
    ensures
        is_report(r, package.metadata, roots@, *database, *machine),
{
    let mut report = nothing();
    let state = match database {
        Ok(Some(state)) => state,
        Ok(None) => {
            return Ok(report);
        },
        Err(err) => {
            if unreadable_state(err) {
                report.status = "failed";
                report.findings.push(Finding::plain(err.code, err.message.as_str()));
                assert(text::views(report.findings@) =~= seq![
                    FindingView { code: err@.code, path: None, detail: Some(err@.message) },
                ]);
                return Ok(report);
            }
            return Err(err.copy());
        },
    };
    match &state.open {
        Some((txn, direction)) => {
            report.status = "transaction_open";
            report.transaction = Some(transaction_info(txn, Some(*direction)));
            match &state.installation {
                Some(row) => {
                    report.installation = Some(
                        installation_info(row, state.file_count, roots.state_db.as_str()),
                    );
                },
                None => {},
            }
            return Ok(report);
        },
        None => {},
    }
    let row = match &state.installation {
        Some(row) => row,
        None => {
            return Ok(report);
        },
    };
    let root = row.install_root.as_str();
    let owned = &state.owned;
    let key: Option<&str> = match &owned.registration_key {
        Some(key) => Some(key.as_str()),
        None => None,
    };
    let files = checks::check_files(&owned.files, root, machine)?;
    let directories = checks::check_directories(&owned.directories, root, machine)?;
    let values = checks::check_values(&owned.registry_values, key, machine)?;
    let entries = checks::check_entries(&owned.path_entries, machine)?;
    let shortcuts = checks::check_shortcuts(&owned.shortcuts, machine)?;
    let variables = checks::check_variables(&owned.environment_variables, machine)?;
    let rules = checks::check_rules(&owned.firewall_rules, machine)?;
    let programs = checks::check_programs(&owned.actions, roots.state_dir.as_str(), machine)?;
    let integrations = integration_statuses(
        &package.metadata,
        row,
        owned,
        &state.options,
        machine,
    )?;
    let ghost m = Marks {
        files: text::views(files@),
        directories: text::views(directories@),
        values: text::views(values@),
        entries: text::views(entries@),
        shortcuts: text::views(shortcuts@),
        variables: text::views(variables@),
        rules: text::views(rules@),
        programs: text::views(programs@),
    };
    assert(marks(*owned, root@, roots.state_dir@, *machine) == Ok::<Marks, ErrorView>(m));
    let flags = checks::registration_flags(&owned.registry_values, key);
    proof {
        lemma_all_len(
            owned.registry_values@.map_values(
                checks::value_mark(text::option_view(key), *machine),
            ),
        );
    }
    let (registration_checked, registration_ok) = checks::tally_kind(&values, &flags, true);
    let (registry_checked, registry_ok) = checks::tally_kind(&values, &flags, false);
    let mut findings: Vec<Finding> = Vec::new();
    assert(text::views(findings@) =~= Seq::<FindingView>::empty());
    let (files_checked, files_ok) = checks::tally(files, &mut findings);
    let (directories_checked, directories_ok) = checks::tally(directories, &mut findings);
    check_registration(owned, machine, &mut findings);
    let _ = checks::tally(values, &mut findings);
    let (path_entries_checked, path_entries_ok) = checks::tally(entries, &mut findings);
    let (shortcuts_checked, shortcuts_ok) = checks::tally(shortcuts, &mut findings);
    let (environment_variables_checked, environment_variables_ok) = checks::tally(
        variables,
        &mut findings,
    );
    let (firewall_rules_checked, firewall_rules_ok) = checks::tally(rules, &mut findings);
    let (action_programs_checked, action_programs_ok) = checks::tally(programs, &mut findings);
    assert(text::views(findings@) =~= all_wrong(m, *owned, *machine));
    report.installation = Some(
        installation_info(row, state.file_count, roots.state_db.as_str()),
    );
    report.status = if findings.len() == 0 {
        "ok"
    } else {
        "failed"
    };
    report.findings = findings;
    report.counts = VerifyCounts {
        files_checked,
        files_ok,
        directories_checked,
        directories_ok,
        registry_values_checked: registry_checked,
        registry_values_ok: registry_ok,
        path_entries_checked,
        path_entries_ok,
        shortcuts_checked,
        shortcuts_ok,
        registration_values_checked: registration_checked,
        registration_values_ok: registration_ok,
        environment_variables_checked,
        environment_variables_ok,
        firewall_rules_checked,
        firewall_rules_ok,
        action_programs_checked,
        action_programs_ok,
    };
    report.integrations = integrations;
    Ok(report)
}

proof fn lemma_all_len<T, E>(steps: Seq<Result<T, E>>)
    ensures
        lists::all(steps) matches Ok(v) ==> v.len() == steps.len(),
    decreases steps.len(),
{
    if steps.len() > 0 {
        lemma_all_len(steps.drop_last());
    }
}

proof fn lemma_nothing_wrong(marks: Seq<Mark>)
    ensures
        checks::fine(marks) <= checks::checked(marks),
        checks::wrong(marks).len() + checks::fine(marks) == checks::checked(marks),
    decreases marks.len(),
{
    if marks.len() > 0 {
        lemma_nothing_wrong(marks.drop_last());
    }
}

proof fn lemma_nothing_wrong_of_a_kind(marks: Seq<Mark>, kinds: Seq<bool>, kind: bool)
    requires
        checks::wrong(marks).len() == 0,
        marks.len() == kinds.len(),
    ensures
        checks::wrong(checks::of_kind(marks, kinds, kind)).len() == 0,
    decreases marks.len(),
{
    if marks.len() > 0 {
        lemma_nothing_wrong_of_a_kind(marks.drop_last(), kinds.drop_last(), kind);
        let before = checks::of_kind(marks.drop_last(), kinds.drop_last(), kind);
        assert(before.push(marks.last()).drop_last() =~= before);
    }
}

/// A check accounts for everything it looked at: what it found wrong and what
/// it found as recorded make up what it checked. So a report that is `ok` found
/// everything it checked as recorded, of every kind.
pub proof fn lemma_a_check_accounts_for_everything(
    report: VerifyReport,
    row: InstallationRow,
    state: State,
    m: Marks,
    integrations: Seq<StatusView>,
    state_db: Seq<char>,
    machine: Machine,
)
    requires
        tells_checked(report, row, state, m, integrations, state_db, machine),
        m.values.len() == state.owned.registry_values@.len(),
        report.status@ == "ok"@,
    ensures
        report.counts.registration_values_ok == report.counts.registration_values_checked,
        report.counts.registry_values_ok == report.counts.registry_values_checked,
        report.counts.files_ok == report.counts.files_checked,
        report.counts.directories_ok == report.counts.directories_checked,
        report.counts.path_entries_ok == report.counts.path_entries_checked,
        report.counts.shortcuts_ok == report.counts.shortcuts_checked,
        report.counts.environment_variables_ok == report.counts.environment_variables_checked,
        report.counts.firewall_rules_ok == report.counts.firewall_rules_checked,
        report.counts.action_programs_ok == report.counts.action_programs_checked,
{
    reveal_strlit("ok");
    reveal_strlit("failed");
    assert("ok"@.len() != "failed"@.len());
    lemma_nothing_wrong(m.files);
    lemma_nothing_wrong(m.directories);
    lemma_nothing_wrong(m.entries);
    lemma_nothing_wrong(m.shortcuts);
    lemma_nothing_wrong(m.variables);
    lemma_nothing_wrong(m.rules);
    lemma_nothing_wrong(m.programs);
    assert(text::views(report.findings@).len() == 0);
    assert(all_wrong(m, state.owned, machine).len() == 0);
    let kinds = state.owned.registry_values@.map_values(
        checks::registering(text::option_view(state.owned.registration_key)),
    );
    lemma_nothing_wrong_of_a_kind(m.values, kinds, true);
    lemma_nothing_wrong_of_a_kind(m.values, kinds, false);
    lemma_nothing_wrong(checks::of_kind(m.values, kinds, true));
    lemma_nothing_wrong(checks::of_kind(m.values, kinds, false));
}

}
