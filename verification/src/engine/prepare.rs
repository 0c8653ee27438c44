//! What a run works out before it touches anything: the options in effect, the
//! desired state, the plan and the transaction that will carry it out. Install,
//! upgrade, reinstall and repair differ only in what they start from and in
//! whether an owned file that has to be rewritten is reported as repaired; an
//! uninstall desires nothing.

use vstd::prelude::*;

use crate::action::definition::ActionOperation;
use crate::action::launch::Context;
use crate::action::plan;
use crate::action::plan::ActionPlan;
use crate::engine::package;
use crate::engine::package::{Package, Roots, RunOptions};
use crate::error::{Error, ErrorView};
use crate::lists;
use crate::machine::Machine;
use crate::metadata::OptionView;
use crate::paths;
use crate::plan::desired;
use crate::plan::desired::Desired;
use crate::plan::files::Payload;
use crate::plan::reconcile;
use crate::plan::reconcile::{Plan, Reconcile};
use crate::quiescence;
use crate::quiescence::Selection;
use crate::resource::predicate::Options;
use crate::scope;
use crate::state::installation::{InstallationRow, Owned};
use crate::state::journal::{TransactionRow, TxnKind, TxnState};
use crate::text;

verus! {

/// What an installing run starts from.
#[derive(Debug)]
pub struct Installing<'a> {
    pub package: &'a Package,
    pub options: &'a RunOptions,
    pub roots: &'a Roots,
    pub kind: TxnKind,
    pub existing: Option<&'a InstallationRow>,
    /// The options the installation records.
    pub recorded: &'a Options,
    pub owned: &'a Owned,
    pub repair: bool,
    pub payload: &'a Payload,
    /// Whether this process may write the firewall store.
    pub firewall: bool,
    pub machine: &'a Machine,
    /// The day the installation is recorded with.
    pub install_date: &'a str,
}

/// What a run that would move an installation is refused with.
pub open spec fn root_conflict(row: InstallationRow, requested: Seq<char>) -> ErrorView {
    ErrorView {
        code: "install_root_conflict"@,
        message: row.version@ + " is installed at "@ + row.install_root@
            + "; this run cannot move it to "@ + requested,
    }
}

/// The root a run installs into: an installation stays where it is, and a run
/// that asks for another place is refused.
pub open spec fn root_of(i: Installing) -> Result<Seq<char>, ErrorView> {
    match i.existing {
        None => Ok(i.roots.install_root@),
        Some(row) => match i.options.install_root {
            Some(requested) => if paths::same_path(requested@, row.install_root@) {
                Ok(row.install_root@)
            } else {
                Err(root_conflict(*row, requested@))
            },
            None => Ok(row.install_root@),
        },
    }
}

/// The options the installation records: a first install has none.
pub open spec fn recorded_options(i: Installing) -> Map<Seq<char>, OptionView> {
    if i.existing is Some {
        i.recorded@
    } else {
        Map::empty()
    }
}

/// The options in effect.
pub open spec fn effective(i: Installing) -> Map<Seq<char>, OptionView> {
    desired::effective(i.package.metadata.options@, recorded_options(i), i.options.options@)
}

/// Whether what is owned stays in the scope.
pub open spec fn strays(owned: Owned, scope: crate::metadata::Scope) -> Option<ErrorView> {
    match lists::first(scope::stored_keys(owned), scope::refused_in(scope)) {
        None => None,
        Some(stored) => scope::key_refusal(scope, stored),
    }
}

/// The desired state of a run.
pub open spec fn wanted(i: Installing, root: Seq<char>) -> Result<desired::DesiredView, ErrorView> {
    desired::resolved(
        i.package.metadata,
        effective(i),
        i.options.scope,
        root,
        i.roots.uninstaller@,
        i.install_date@,
        *i.machine,
        *i.owned,
    )
}

/// What an installing run has worked out before it plans.
#[derive(Debug)]
pub struct Groundwork {
    pub install_root: String,
    pub effective: Options,
    pub desired: Desired,
    pub shortcut_folders: Vec<String>,
    pub actions: ActionPlan,
}

/// What a run that cannot even be planned is refused with: it would move the
/// installation, it sets an option the package does not take, it records a
/// place outside its scope, or what the package declares does not resolve. The
/// first of these is reported.
pub open spec fn refusal(i: Installing) -> Option<ErrorView> {
    match root_of(i) {
        Err(e) => Some(e),
        Ok(root) => match lists::first(
            i.options.options.listed(),
            desired::is_refused(i.package.metadata),
        ) {
            Some(entry) => desired::refusal(i.package.metadata, entry),
            None => match strays(*i.owned, i.options.scope) {
                Some(e) => Some(e),
                None => match wanted(i, root) {
                    Err(e) => Some(e),
                    Ok(_) => match scope::folders_of(i.options.scope, *i.machine) {
                        Err(e) => Some(e),
                        Ok(_) => None,
                    },
                },
            },
        },
    }
}

/// Whether a groundwork is that of a run.
pub open spec fn is_groundwork(g: Groundwork, i: Installing) -> bool {
    &&& root_of(i) == Ok::<Seq<char>, ErrorView>(g.install_root@)
    &&& g.effective@ == effective(i)
    &&& wanted(i, g.install_root@) == Ok::<desired::DesiredView, ErrorView>(g.desired@)
    &&& scope::folders_of(i.options.scope, *i.machine) == Ok::<Seq<Seq<char>>, ErrorView>(
        text::views(g.shortcut_folders@),
    )
    &&& g.actions@ == plan::arranged(
        text::views(i.package.metadata.actions@),
        text::views(i.package.metadata.quiescence@),
        plan::operation_for(i.kind),
        effective(i),
        true,
    )
}

/// Where an installing run goes and the options in effect for it.
#[derive(Debug)]
pub struct Footing {
    pub install_root: String,
    pub effective: Options,
}

/// Finds where an installing run goes and the options in effect for it: all
/// that is settled before anything of the run is written. A run that would
/// move the installation, or sets an option the package does not take, is
/// refused.
pub fn find_footing(i: &Installing) -> (r: Result<Footing, Error>)
    ensures
        match root_of(*i) {
            Err(e) => (r matches Err(x) && x@ == e),
            Ok(root) => match lists::first(
                i.options.options.listed(),
                desired::is_refused(i.package.metadata),
            ) {
                Some(entry) => (r matches Err(x) && Some(x@) == desired::refusal(
                    i.package.metadata,
                    entry,
                )),
                None => (r matches Ok(f) && f.install_root@ == root && f.effective@ == effective(
                    *i,
                )),
            },
        },
{
    let metadata = &i.package.metadata;
    let install_root = match i.existing {
        None => i.roots.install_root.clone(),
        Some(row) => {
            match &i.options.install_root {
                Some(requested) => {
                    if !paths::same_path_of(requested.as_str(), row.install_root.as_str()) {
                        let message = text::cat5(
                            row.version.as_str(),
                            " is installed at ",
                            row.install_root.as_str(),
                            "; this run cannot move it to ",
                            requested.as_str(),
                        );
                        return Err(Error::new("install_root_conflict", message.as_str()));
                    }
                },
                None => {},
            }
            row.install_root.clone()
        },
    };
    let none = Options::new();
    let recorded = match i.existing {
        Some(_) => i.recorded,
        None => &none,
    };
    let effective = desired::effective_options(metadata, recorded, &i.options.options)?;
    Ok(Footing { install_root, effective })
}

/// Works out what an installing run plans from, or why it may not.
pub fn lay_groundwork(i: &Installing) -> (r: Result<Groundwork, Error>)
    ensures
        match refusal(*i) {
            Some(e) => (r matches Err(x) && x@ == e),
            None => (r matches Ok(g) && is_groundwork(g, *i)),
        },
{
    let metadata = &i.package.metadata;
    let Footing { install_root, effective } = find_footing(i)?;
    let locations = scope::locations(i.options.scope);
    locations.confine_owned(i.owned)?;
    let desired = desired::desired(
        metadata,
        &effective,
        i.options.scope,
        install_root.as_str(),
        i.roots.uninstaller.as_str(),
        i.install_date,
        i.machine,
        i.owned,
    )?;
    let shortcut_folders = locations.shortcut_folders(i.machine)?;
    let actions = plan::install_plan(metadata, &effective, i.kind);
    Ok(Groundwork { install_root, effective, desired, shortcut_folders, actions })
}

/// Whether a reconciliation is that of an installing run.
pub open spec fn is_reconciliation(input: Reconcile, i: Installing, g: Groundwork) -> bool {
    &&& input.desired == Some(&g.desired)
    &&& input.owned == i.owned
    &&& input.install_root@ == g.install_root@
    &&& input.payload == Some(i.payload)
    &&& input.machine == i.machine
    &&& input.scope == i.options.scope
    &&& input.inspect_files == (i.existing is Some)
    &&& input.repair == i.repair
    &&& input.shortcut_folders == &g.shortcut_folders
    &&& input.firewall == i.firewall
    &&& input.actions == &g.actions
}

/// What a run is about to carry out.
#[derive(Debug)]
pub struct Prepared {
    pub plan: Plan,
    pub transaction: TransactionRow,
    /// What is stopped before the files are touched.
    pub quiescence: Selection,
    pub context: Context,
}

/// The version an installation is of.
pub open spec fn version_of(existing: Option<&InstallationRow>) -> Option<Seq<char>> {
    match existing {
        Some(row) => Some(row.version@),
        None => None,
    }
}

/// What the commit will record as the accepted licence: the text the person
/// accepted in this run, else what the installation already records — an
/// upgrade or repair nobody accepted anything in carries the earlier
/// acceptance forward.
pub open spec fn carried_acceptance(i: Installing) -> Option<Seq<char>> {
    match package::acceptance(*i.package, *i.options) {
        Some(sha256) => Some(sha256),
        None => match i.existing {
            Some(row) => text::option_view(row.accepted_license_sha256),
            None => None,
        },
    }
}

/// Whether a row is the transaction of an installing run.
pub open spec fn is_transaction(
    t: TransactionRow,
    i: Installing,
    g: Groundwork,
    id: Seq<char>,
    now: Seq<char>,
) -> bool {
    &&& t.id@ == id
    &&& t.kind == i.kind
    &&& text::option_view(t.from_version) == version_of(i.existing)
    &&& text::option_view(t.to_version) == if i.kind == TxnKind::Uninstall {
        None
    } else {
        Some(i.package.metadata.package.version@)
    }
    &&& t.package_id@ == i.package.metadata.package.id@
    &&& t.package_version@ == i.package.metadata.package.version@
    &&& t.metadata_sha256@ == i.package.metadata_sha256@
    &&& t.scope@ == i.options.scope.name()
    &&& t.install_root@ == g.install_root@
    &&& t.state == TxnState::Running
    &&& t.started_at@ == now
    &&& t.finished_at is None
    &&& text::option_view(t.registration_key) == Some(g.desired@.registration_key.text())
    &&& text::option_view(t.accepted_license_sha256) == carried_acceptance(i)
}

/// Whether a context is what a run tells the programs it starts.
pub open spec fn is_context(
    c: Context,
    root: Seq<char>,
    version: Seq<char>,
    p: Package,
    o: RunOptions,
    operation: ActionOperation,
) -> bool {
    &&& c.install_root@ == root
    &&& c.version@ == version
    &&& c.product_id@ == p.metadata.package.id@
    &&& c.scope == o.scope
    &&& c.operation == operation
    &&& c.quiet == o.quiet
}

/// Whether a result is what an installing run is about to carry out.
pub open spec fn is_prepared(
    r: Result<Prepared, Error>,
    i: Installing,
    g: Groundwork,
    input: Reconcile,
    id: Seq<char>,
    now: Seq<char>,
) -> bool {
    &&& is_reconciliation(input, i, g)
    &&& match r {
        Err(e) => reconcile::is_plan(Err(e), input),
        Ok(p) => {
            &&& reconcile::is_plan(Ok(p.plan), input)
            &&& is_transaction(p.transaction, i, g, id, now)
            &&& quiescence::selects(
                p.quiescence,
                text::views(i.package.metadata.quiescence@),
                plan::operation_for(i.kind),
                g.effective@,
            )
            &&& is_context(
                p.context,
                g.install_root@,
                i.package.metadata.package.version@,
                *i.package,
                *i.options,
                plan::operation_for(i.kind),
            )
        },
    }
}

fn transaction_of(i: &Installing, g: &Groundwork, id: &str, now: &str) -> (r: TransactionRow)
    ensures
        is_transaction(r, *i, *g, id@, now@),
{
    let from: Option<&str> = match i.existing {
        Some(row) => Some(row.version.as_str()),
        None => None,
    };
    let mut transaction = package::new_transaction(
        i.package,
        i.roots,
        i.options,
        i.kind,
        from,
        id,
        now,
    );
    transaction.install_root = g.install_root.clone();
    transaction.registration_key = Some(g.desired.registration_key.to_string());
    transaction.accepted_license_sha256 = match package::accepted_license(i.package, i.options) {
        Some(sha256) => Some(sha256),
        None => match i.existing {
            Some(row) => row.accepted_license_sha256.clone(),
            None => None,
        },
    };
    transaction
}

fn context_of(
    root: &str,
    version: &str,
    p: &Package,
    o: &RunOptions,
    operation: ActionOperation,
) -> (r: Context)
    ensures
        is_context(r, root@, version@, *p, *o, operation),
{
    Context {
        install_root: text::owned(root),
        version: text::owned(version),
        product_id: text::owned(p.id()),
        scope: o.scope,
        operation,
        quiet: o.quiet,
    }
}

/// Plans an installing run: reconciles the package and the options in effect
/// against what is owned, and says what its transaction, its quiescence and
/// its programs' context are.
pub fn reconcile_run(i: &Installing, g: &Groundwork, id: &str, now: &str) -> (r: Result<
    Prepared,
    Error,
>)
    requires
        is_groundwork(*g, *i),
    ensures
        exists|input: Reconcile| is_prepared(r, *i, *g, input, id@, now@),
{
    let input = Reconcile {
        desired: Some(&g.desired),
        owned: i.owned,
        install_root: g.install_root.as_str(),
        payload: Some(i.payload),
        machine: i.machine,
        scope: i.options.scope,
        inspect_files: i.existing.is_some(),
        repair: i.repair,
        shortcut_folders: &g.shortcut_folders,
        firewall: i.firewall,
        actions: &g.actions,
    };
    assert(is_reconciliation(input, *i, *g));
    let plan = match reconcile::reconcile(&input) {
        Ok(plan) => plan,
        Err(e) => {
            let r: Result<Prepared, Error> = Err(e);
            assert(is_prepared(r, *i, *g, input, id@, now@));
            return r;
        },
    };
    let transaction = transaction_of(i, g, id, now);
    let quiescence = quiescence::install_plan(&i.package.metadata, &g.effective, i.kind);
    let context = context_of(
        g.install_root.as_str(),
        i.package.version(),
        i.package,
        i.options,
        plan::operation_of(i.kind),
    );
    let r: Result<Prepared, Error> = Ok(Prepared { plan, transaction, quiescence, context });
    assert(is_prepared(r, *i, *g, input, id@, now@));
    r
}

/// What an uninstall starts from.
#[derive(Debug)]
pub struct Uninstalling<'a> {
    pub package: &'a Package,
    pub options: &'a RunOptions,
    pub roots: &'a Roots,
    pub existing: &'a InstallationRow,
    /// The options the installation records.
    pub recorded: &'a Options,
    pub owned: &'a Owned,
    /// Whether this process may write the firewall store.
    pub firewall: bool,
    pub machine: &'a Machine,
}

/// What an uninstall that cannot be planned is refused with.
pub open spec fn uninstall_refusal(u: Uninstalling) -> Option<ErrorView> {
    match strays(*u.owned, u.options.scope) {
        Some(e) => Some(e),
        None => match scope::folders_of(u.options.scope, *u.machine) {
            Err(e) => Some(e),
            Ok(_) => match plan::recorded(u.owned.actions@) {
                Err(e) => Some(e),
                Ok(_) => None,
            },
        },
    }
}

/// Whether a reconciliation is that of an uninstall: nothing is desired.
pub open spec fn is_removal(input: Reconcile, u: Uninstalling) -> bool {
    &&& input.desired is None
    &&& input.owned == u.owned
    &&& input.install_root@ == u.existing.install_root@
    &&& input.payload is None
    &&& input.machine == u.machine
    &&& input.scope == u.options.scope
    &&& input.inspect_files
    &&& !input.repair
    &&& scope::folders_of(u.options.scope, *u.machine) == Ok::<Seq<Seq<char>>, ErrorView>(
        text::views(input.shortcut_folders@),
    )
    &&& input.firewall == u.firewall
    &&& plan::recorded(u.owned.actions@) matches Ok(actions)
    &&& input.actions@ == plan::arranged(
        actions,
        Seq::empty(),
        ActionOperation::Uninstall,
        u.recorded@,
        false,
    )
}

/// Whether a row is the transaction of an uninstall.
pub open spec fn is_uninstall(t: TransactionRow, u: Uninstalling, id: Seq<char>, now: Seq<char>) -> bool {
    &&& t.id@ == id
    &&& t.kind == TxnKind::Uninstall
    &&& text::option_view(t.from_version) == Some(u.existing.version@)
    &&& t.to_version is None
    &&& t.package_id@ == u.package.metadata.package.id@
    &&& t.package_version@ == u.package.metadata.package.version@
    &&& t.metadata_sha256@ == u.package.metadata_sha256@
    &&& t.scope@ == u.options.scope.name()
    &&& t.install_root@ == u.existing.install_root@
    &&& t.state == TxnState::Running
    &&& t.started_at@ == now
    &&& t.finished_at is None
    &&& text::option_view(t.registration_key) == text::option_view(u.existing.registration_key)
    &&& t.accepted_license_sha256 is None
}

/// Whether a result is what an uninstall is about to carry out.
pub open spec fn is_prepared_uninstall(
    r: Result<Prepared, Error>,
    u: Uninstalling,
    input: Reconcile,
    id: Seq<char>,
    now: Seq<char>,
) -> bool {
    &&& is_removal(input, u)
    &&& match r {
        Err(e) => reconcile::is_plan(Err(e), input) || (reconcile::sections(input) is Ok
            && quiescence::recorded(u.owned.actions@) == Err::<
            Seq<crate::action::definition::QuiescenceView>,
            ErrorView,
        >(e@)),
        Ok(p) => {
            &&& reconcile::is_plan(Ok(p.plan), input)
            &&& is_uninstall(p.transaction, u, id, now)
            &&& quiescence::recorded(u.owned.actions@) matches Ok(entries)
            &&& quiescence::selects(
                p.quiescence,
                entries,
                ActionOperation::Uninstall,
                u.recorded@,
            )
            &&& is_context(
                p.context,
                u.existing.install_root@,
                u.existing.version@,
                *u.package,
                *u.options,
                ActionOperation::Uninstall,
            )
        },
    }
}

/// Plans an uninstall from the database: everything owned goes, by the
/// installation's own actions and under its own quiescence.
pub fn uninstall_run(u: &Uninstalling, id: &str, now: &str) -> (r: Result<Prepared, Error>)
    ensures
        match uninstall_refusal(*u) {
            Some(e) => (r matches Err(x) && x@ == e),
            None => exists|input: Reconcile| is_prepared_uninstall(r, *u, input, id@, now@),
        },
{
    let locations = scope::locations(u.options.scope);
    locations.confine_owned(u.owned)?;
    let shortcut_folders = locations.shortcut_folders(u.machine)?;
    let actions = plan::uninstall_plan(u.owned, u.recorded)?;
    let input = Reconcile {
        desired: None,
        owned: u.owned,
        install_root: u.existing.install_root.as_str(),
        payload: None,
        machine: u.machine,
        scope: u.options.scope,
        inspect_files: true,
        repair: false,
        shortcut_folders: &shortcut_folders,
        firewall: u.firewall,
        actions: &actions,
    };
    assert(is_removal(input, *u));
    let plan = match reconcile::reconcile(&input) {
        Ok(plan) => plan,
        Err(e) => {
            let r: Result<Prepared, Error> = Err(e);
            assert(is_prepared_uninstall(r, *u, input, id@, now@));
            return r;
        },
    };
    let mut transaction = package::new_transaction(
        u.package,
        u.roots,
        u.options,
        TxnKind::Uninstall,
        Some(u.existing.version.as_str()),
        id,
        now,
    );
    transaction.install_root = u.existing.install_root.clone();
    transaction.registration_key = u.existing.registration_key.clone();
    let context = context_of(
        u.existing.install_root.as_str(),
        u.existing.version.as_str(),
        u.package,
        u.options,
        ActionOperation::Uninstall,
    );
    let quiescence = match quiescence::uninstall_plan(u.owned, u.recorded) {
        Ok(quiescence) => quiescence,
        Err(e) => {
            let r: Result<Prepared, Error> = Err(e);
            assert(is_prepared_uninstall(r, *u, input, id@, now@));
            return r;
        },
    };
    let r: Result<Prepared, Error> = Ok(Prepared { plan, transaction, quiescence, context });
    assert(is_prepared_uninstall(r, *u, input, id@, now@));
    r
}

/// The options in effect as the log shows them.
pub open spec fn options_shown(entries: Seq<crate::resource::predicate::OptionEntry>) -> Seq<char> {
    text::join(
        entries.map_values(
            |e: crate::resource::predicate::OptionEntry| e.name@ + "="@ + e.value@.text(),
        ),
        " "@,
    )
}

/// The options in effect as the log shows them.
pub fn show_options(options: &Options) -> (r: String)
    ensures
        r@ == options_shown(options.listed()),
{
    let entries = options.entries();
    let ghost all = entries@.map_values(
        |e: crate::resource::predicate::OptionEntry| e.name@ + "="@ + e.value@.text(),
    );
    let mut parts: Vec<String> = Vec::new();
    let mut i: usize = 0;
    while i < entries.len()
        invariant
            i <= entries@.len(),
            all == entries@.map_values(
                |e: crate::resource::predicate::OptionEntry| e.name@ + "="@ + e.value@.text(),
            ),
            parts@.len() == i,
            forall|j: int| 0 <= j < i ==> #[trigger] parts@[j]@ == all[j],
        decreases entries@.len() - i,
    {
        let value = entries[i].value.as_text();
        parts.push(text::cat3(entries[i].name.as_str(), "=", value.as_str()));
        i = i + 1;
    }
    assert(text::views(parts@) =~= all);
    text::join_of(&parts, " ")
}

/// What the log says of an action a run leaves out, and why.
pub open spec fn left_out() -> spec_fn((Seq<char>, Seq<char>)) -> Seq<char> {
    |s: (Seq<char>, Seq<char>)|
        s.0 + ": "@ + if s.1 == "option"@ {
            "disabled by its option"@
        } else {
            "not declared for this operation"@
        }
}

/// What the log says of the declared actions a run leaves out, and why.
pub fn report_skipped_actions(actions: &ActionPlan) -> (r: Vec<String>)
    ensures
        text::views(r@) == actions@.skipped.map_values(left_out()),
{
    let ghost all = actions@.skipped.map_values(left_out());
    let mut out: Vec<String> = Vec::new();
    let mut i: usize = 0;
    while i < actions.skipped.len()
        invariant
            i <= actions.skipped@.len(),
            all == actions@.skipped.map_values(left_out()),
            out@.len() == i,
            forall|j: int| 0 <= j < i ==> #[trigger] out@[j]@ == all[j],
        decreases actions.skipped@.len() - i,
    {
        let why = if text::same(actions.skipped[i].1, "option") {
            "disabled by its option"
        } else {
            "not declared for this operation"
        };
        out.push(text::cat3(actions.skipped[i].0.as_str(), ": ", why));
        i = i + 1;
    }
    assert(text::views(out@) =~= all);
    out
}

/// An upgrade or a repair in which nobody accepted anything keeps the
/// acceptance the installation records; a quiet run never records a new one.
pub proof fn lemma_an_acceptance_is_carried_forward(i: Installing)
    requires
        i.options.quiet,
    ensures
        i.existing matches Some(row) ==> carried_acceptance(i) == text::option_view(
            row.accepted_license_sha256,
        ),
        i.existing is None ==> carried_acceptance(i) is None,
{
}

/// An installation stays where it is: whatever root a run asks for, the one
/// that is planned is the one the installation records.
pub proof fn lemma_an_installation_is_never_moved(i: Installing)
    ensures
        i.existing matches Some(row) ==> (root_of(i) matches Ok(root) ==> root
            == row.install_root@),
{
}

/// An uninstall plans from the database, never from a manifest: whatever
/// package runs it and whatever that package declares, the same records and
/// the same machine give the same refusal, the same removal and the same stop
/// programs.
pub proof fn lemma_an_uninstall_plans_from_the_database_alone(
    u: Uninstalling,
    v: Uninstalling,
    input: Reconcile,
)
    requires
        u.options.scope == v.options.scope,
        u.existing == v.existing,
        u.recorded == v.recorded,
        u.owned == v.owned,
        u.firewall == v.firewall,
        u.machine == v.machine,
    ensures
        uninstall_refusal(u) == uninstall_refusal(v),
        is_removal(input, u) == is_removal(input, v),
        quiescence::recorded(u.owned.actions@) == quiescence::recorded(v.owned.actions@),
{
}

}
