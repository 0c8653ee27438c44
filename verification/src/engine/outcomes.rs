//! What holds of a run: what it sets out to do, in what order, and how it
//! ends.

use vstd::prelude::*;

use crate::engine::entry;
use crate::engine::package;
use crate::engine::package::{Package, Roots, RunOptions};
use crate::engine::prepare;
use crate::engine::prepare::{Groundwork, Installing, Prepared, Uninstalling};
use crate::engine::run;
use crate::engine::run::{Ended, Fault, InstallWorld, Intended, OwnStep, OwnWorld, Step};
use crate::engine::transact;
use crate::engine::transact::{TransactionStep, TransactionWorld};
use crate::error::{Error, ErrorView};
use crate::lists;
use crate::machine::Machine;
use crate::metadata;
use crate::metadata::Scope;
use crate::paths;
use crate::plan::declared;
use crate::plan::desired;
use crate::plan::reconcile;
use crate::plan::reconcile::Reconcile;
use crate::plan::target;
use crate::report::documents::{ActionInfo, Outcome};
use crate::report::Finding;
use crate::state::installation::InstallationRow;
use crate::state::journal::{TransactionRow, TxnKind, TxnState};
use crate::text;

verus! {

/// What a run is for: a first install, an upgrade to another version, or, of
/// the same version, a reinstall where options are given or a license is
/// accepted anew, and nothing otherwise.
pub proof fn lemma_what_a_run_is_for(
    existing: Option<InstallationRow>,
    p: Package,
    o: RunOptions,
)
    ensures
        ({
            let r = run::intended(existing, p, o);
            let same = existing matches Some(row) && row.version@ == p.metadata.package.version@;
            let accepted = o.license_accepted && !o.quiet && p.license_sha256 is Some;
            let known = existing matches Some(row) && text::option_view(row.accepted_license_sha256)
                == text::option_view(p.license_sha256);
            &&& r == Intended::Transaction(TxnKind::Install) <==> existing is None
            &&& r == Intended::Transaction(TxnKind::Upgrade) <==> existing is Some && !same
            &&& r == Intended::Nothing <==> same && o.options.listed().len() == 0 && (!accepted
                || known)
            &&& r == Intended::Transaction(TxnKind::Reinstall) <==> same && (
            o.options.listed().len() > 0 || (accepted && !known))
        }),
{
}

/// Whether the way into an installing run is clear: the package is a whole
/// one, its policy takes the scope, what was left open is recovered, and every
/// option is one of its own.
pub open spec fn is_clear(p: Package, o: RunOptions, w: InstallWorld) -> bool {
    &&& p.uninstaller_scope is None
    &&& w.refused matches Some(Ok(refused)) && !refused
    &&& w.state_exists ==> w.recovered is Some
    &&& w.recovered is Some ==> w.recovered->Some_0 is Ok
    &&& lists::first(o.options.listed(), desired::is_refused(p.metadata)) is None
}

/// Whether the dependencies are there, and that is recorded where there is a
/// database.
pub open spec fn has_dependencies(p: Package, o: RunOptions, w: InstallWorld) -> bool {
    &&& is_clear(p, o, w)
    &&& w.phase matches Some(phase) && phase.failure is None
    &&& w.state_exists ==> w.recorded is Some
    &&& w.recorded is Some ==> w.recorded->Some_0 is Ok
}

/// An installing run goes step by step: scope, recovery, options,
/// dependencies, the installation it replaces, the database, the transaction.
pub proof fn lemma_the_order_of_an_installing_run(p: Package, o: RunOptions, w: InstallWorld)
    ensures
        ({
            let s = run::install_step(p, o, w);
            let whole = p.uninstaller_scope is None;
            let taken = whole && (w.refused matches Some(Ok(refused)) && !refused);
            let ready = has_dependencies(p, o, w) && (w.migrated is Some && w.migrated->Some_0
                is Ok);
            &&& s == Step::Fail(Fault::Payload) <==> !whole
            &&& s == Step::ResolveScope <==> whole && w.refused is None
            &&& s == Step::Refuse <==> whole && (w.refused matches Some(Ok(refused)) && refused)
            &&& s == Step::Recover <==> taken && w.state_exists && w.recovered is None
            &&& s == Step::Fail(Fault::Recovery) <==> taken && w.recovered is Some
                && w.recovered->Some_0 is Err
            &&& s == Step::RunDependencies <==> is_clear(p, o, w) && w.phase is None
            &&& s == Step::StopAtDependency <==> is_clear(p, o, w) && (w.phase matches Some(phase)
                && phase.failure is Some) && (w.state_exists ==> w.recorded is Some) && (w.recorded
                is Some ==> w.recorded->Some_0 is Ok)
            &&& s == Step::Migrate <==> has_dependencies(p, o, w) && w.migrated is None
            &&& s == Step::Fail(Fault::Legacy) <==> has_dependencies(p, o, w) && w.migrated is Some
                && w.migrated->Some_0 is Err
            &&& s == Step::OpenDatabase <==> ready && w.existing is None && w.recorded is Some
            &&& s is Reconcile <==> ready && w.existing is Some && run::intended(
                w.existing->Some_0,
                p,
                o,
            ) is Transaction && w.ran is None
            &&& s is Reconcile ==> run::intended(w.existing->Some_0, p, o) == Intended::Transaction(
                s->Reconcile_0,
            )
            &&& s == Step::Report <==> ready && w.existing is Some && (run::intended(
                w.existing->Some_0,
                p,
                o,
            ) == Intended::Nothing || (w.ran is Some && w.ran->Some_0 is Ok))
        }),
{
}

/// How a transaction that ended is told, and the exit code that goes with it.
pub proof fn lemma_how_an_end_is_told(
    e: Ended,
    lang: Seq<char>,
    p: Package,
    root: Seq<char>,
    reboot: bool,
)
    ensures
        ({
            let (word, code, exit_code, message) = run::ending(e, lang, p, root);
            let last = run::rebooting(exit_code, reboot);
            &&& e is Committed ==> word == "installed"@ && code == "ok"@ && last == (if reboot {
                3010i32
            } else {
                0i32
            })
            &&& (e matches Ended::RolledBack(err) && err@.code == "cancelled"@) ==> word
                == "cancelled"@ && code == "cancelled"@ && last == 5
            &&& (e matches Ended::RolledBack(err) && err@.code != "cancelled"@) ==> word
                == "rolled_back"@ && code == e->RolledBack_0@.code && last == 1
            &&& (e matches Ended::Stuck(err, rollback)) ==> word == "failed"@ && code
                == e->Stuck_1@.code && last == 7
        }),
{
}

/// A repair brings the installed version back, or puts this one in its place
/// where it is another; a repair or an uninstall recovers first, and does
/// nothing where nothing is installed.
pub proof fn lemma_the_order_of_a_repair(p: Package, w: OwnWorld)
    ensures
        ({
            let s = run::repair_step(p, w);
            let whole = p.uninstaller_scope is None;
            let recovered = whole && w.recovered is Some && w.recovered->Some_0 is Ok;
            let there = recovered && w.existing is Some && w.existing->Some_0 is Some;
            let same = w.existing->Some_0->Some_0.version@ == p.metadata.package.version@;
            &&& s == OwnStep::NoPayload <==> !whole
            &&& s == OwnStep::Recover <==> whole && w.recovered is None
            &&& s == OwnStep::FailedRecovery <==> whole && w.recovered is Some
                && w.recovered->Some_0 is Err
            &&& s == OwnStep::Read <==> recovered && w.existing is None
            &&& s == OwnStep::NotInstalled <==> recovered && w.existing is Some
                && w.existing->Some_0 is None
            &&& s == OwnStep::Transact(TxnKind::Repair) <==> there && same && w.ran is None
            &&& s == OwnStep::Transact(TxnKind::Upgrade) <==> there && !same && w.ran is None
            &&& s == OwnStep::FailedRun <==> there && w.ran is Some && w.ran->Some_0 is Err
            &&& s == OwnStep::Report <==> there && w.ran is Some && w.ran->Some_0 is Ok
        }),
{
}

/// A transaction stops what runs, frees the files, writes its journal and only
/// then changes anything; whatever failed, what was stopped is started again
/// before the end.
pub proof fn lemma_the_order_of_a_transaction(w: TransactionWorld)
    ensures
        ({
            let s = transact::step(w);
            let quiet = w.quiesced is Some && w.quiesced->Some_0 is Ok;
            let free = quiet && w.freed is Some && w.freed->Some_0 is Ok;
            let begun = free && w.begun is Some && w.begun->Some_0 is Ok;
            let done = begun && w.executed is Some && w.executed->Some_0 is Ok;
            let failed = {
                ||| w.quiesced is Some && w.quiesced->Some_0 is Err
                ||| quiet && w.freed is Some && w.freed->Some_0 is Err
                ||| free && w.begun is Some && w.begun->Some_0 is Err
                ||| begun && w.executed is Some && w.executed->Some_0 is Err
            };
            &&& s == TransactionStep::Quiesce <==> w.quiesced is None
            &&& s == TransactionStep::FreeFiles <==> quiet && w.freed is None
            &&& s == TransactionStep::Begin <==> free && w.begun is None
            &&& s == TransactionStep::Execute <==> begun && w.executed is None
            &&& s == TransactionStep::Settle <==> done && !w.settled
            &&& s == TransactionStep::Report <==> done && w.settled
            &&& s == TransactionStep::Resume <==> failed && !w.settled
            &&& s == TransactionStep::Fail <==> failed && w.settled
        }),
{
}

/// Where a run installs: an installation stays where it is, and another place
/// may be asked for only the first time.
pub proof fn lemma_where_a_run_installs(i: Installing)
    ensures
        i.existing is None ==> prepare::root_of(i) == Ok::<Seq<char>, ErrorView>(
            i.roots.install_root@,
        ),
        i.existing matches Some(row) ==> {
            let r = prepare::root_of(i);
            let other = i.options.install_root is Some && !(paths::parts(
                i.options.install_root->Some_0@,
            ) == paths::parts(row.install_root@));
            &&& r is Err <==> other
            &&& !other ==> r->Ok_0 == row.install_root@
            &&& other ==> r->Err_0.code == "install_root_conflict"@
        },
{
}

/// Where the things of a run are: the root that is asked for, which has to be
/// an absolute path, or else the one the package names for the scope; and the
/// database and the uninstaller in the state directory.
pub proof fn lemma_where_things_are(p: Package, o: RunOptions, machine: Machine)
    ensures
        ({
            let r = package::resolved(p, o, machine);
            let root = package::install_root(p, o, machine);
            let dir = package::state_dir(p.metadata.package.id@, o.scope, machine);
            let takes = p.metadata.install.scopes@.contains(o.scope);
            let declared = if o.scope == Scope::User {
                p.metadata.install.user_root@
            } else {
                p.metadata.install.machine_root@
            };
            &&& r is Ok <==> takes && dir is Ok && root is Ok
            &&& !takes ==> r->Err_0.code == "scope_unsupported"@
            &&& r is Ok ==> r->Ok_0.state_dir == dir->Ok_0 && r->Ok_0.install_root == root->Ok_0
                && r->Ok_0.state_db == target::joined(dir->Ok_0, "state.db"@) && r->Ok_0.uninstaller
                == target::joined(dir->Ok_0, "uninstall.exe"@)
            &&& (o.install_root matches Some(asked) && target::is_absolute(asked@)) ==> root
                == Ok::<Seq<char>, ErrorView>(o.install_root->Some_0@)
            &&& (o.install_root matches Some(asked) && !target::is_absolute(asked@)) ==> root is Err
                && root->Err_0.code == "install_root_invalid"@
            &&& o.install_root is None && declared.len() > 0 ==> root
                == crate::identity::template(declared, machine)
            &&& o.install_root is None && declared.len() == 0 ==> root is Err && root->Err_0.code
                == "metadata_invalid"@
        }),
{
}

/// A name loses what stands behind its last dot, unless the dot begins it.
pub proof fn lemma_the_stem_of_a_name(base: Seq<char>, ending: Seq<char>)
    requires
        base.len() > 0,
        !ending.contains('.'),
    ensures
        run::stem(base + seq!['.'] + ending) == base,
        run::stem(ending) == ending,
        run::stem(seq!['.'] + ending) == seq!['.'] + ending,
{
    lemma_stem_behind(base, ending);
    assert(!run::has_inner_dot(ending)) by {
        if run::has_inner_dot(ending) {
            let i = choose|i: int| 0 < i < ending.len() && #[trigger] ending[i] == '.';
            assert(ending.contains(ending[i]));
        }
    }
    let hidden = seq!['.'] + ending;
    assert(!run::has_inner_dot(hidden)) by {
        if run::has_inner_dot(hidden) {
            let i = choose|i: int| 0 < i < hidden.len() && #[trigger] hidden[i] == '.';
            assert(ending[i - 1] == '.');
            assert(ending.contains(ending[i - 1]));
        }
    }
}

proof fn lemma_stem_behind(base: Seq<char>, ending: Seq<char>)
    requires
        base.len() > 0,
        !ending.contains('.'),
    ensures
        run::stem(base + seq!['.'] + ending) == base,
    decreases ending.len(),
{
    let name = base + seq!['.'] + ending;
    assert(name[base.len() as int] == '.');
    assert(run::has_inner_dot(name));
    if ending.len() == 0 {
        assert(name.drop_last() =~= base);
    } else {
        let less = ending.drop_last();
        assert(ending.contains(ending[ending.len() - 1]));
        assert(!less.contains('.')) by {
            if less.contains('.') {
                let i = choose|i: int| 0 <= i < less.len() && less[i] == '.';
                assert(ending[i] == '.');
                assert(ending.contains(ending[i]));
            }
        }
        assert(name.drop_last() =~= base + seq!['.'] + less);
        lemma_stem_behind(base, less);
    }
}

/// What an install is reconciled from: what is wanted, what is owned, and the
/// machine; files are looked at where something is installed already.
pub proof fn lemma_what_an_install_is_reconciled_from(
    input: Reconcile,
    i: Installing,
    g: Groundwork,
)
    requires
        prepare::is_groundwork(g, i),
        prepare::is_reconciliation(input, i, g),
    ensures
        input.desired is Some,
        input.desired->Some_0@ == prepare::wanted(i, input.install_root@)->Ok_0,
        prepare::root_of(i) == Ok::<Seq<char>, ErrorView>(input.install_root@),
        *input.owned == *i.owned,
        *input.machine == *i.machine,
        input.scope == i.options.scope,
        input.inspect_files <==> i.existing is Some,
        input.repair <==> i.repair,
        input.firewall <==> i.firewall,
        input.payload is Some,
{
}

/// What an uninstall is reconciled from: nothing is wanted, everything that is
/// owned is looked at, and nothing is written over.
pub proof fn lemma_what_an_uninstall_is_reconciled_from(input: Reconcile, u: Uninstalling)
    requires
        prepare::is_removal(input, u),
    ensures
        input.desired is None,
        input.payload is None,
        *input.owned == *u.owned,
        input.install_root@ == u.existing.install_root@,
        *input.machine == *u.machine,
        input.scope == u.options.scope,
        input.inspect_files,
        !input.repair,
        input.firewall <==> u.firewall,
{
}

/// What a run knows of the options: what was recorded counts only where
/// something is installed, and what is asked for goes before it.
pub proof fn lemma_what_counts_of_the_options(i: Installing, k: int)
    requires
        0 <= k < i.package.metadata.options@.len(),
        forall|j: int|
            k < j < i.package.metadata.options@.len() ==> text::lower(
                (#[trigger] i.package.metadata.options@[j]).name@,
            ) != text::lower(i.package.metadata.options@[k].name@),
    ensures
        ({
            let option = i.package.metadata.options@[k];
            let name = text::lower(option.name@);
            let v = prepare::effective(i)[name];
            let asked = i.options.options@;
            &&& prepare::effective(i).dom().contains(name)
            &&& asked.dom().contains(name) && metadata::value_from(option, asked[name].text())
                is Some ==> v == metadata::value_from(option, asked[name].text())->Some_0
            &&& !asked.dom().contains(name) && i.existing is None ==> v == metadata::default_of(
                option,
            )
            &&& !asked.dom().contains(name) && i.existing is Some && i.recorded@.dom().contains(
                name,
            ) && metadata::value_from(option, i.recorded@[name].text()) is Some ==> v
                == metadata::value_from(option, i.recorded@[name].text())->Some_0
        }),
{
    declared::lemma_each_option_has_its_value(
        i.package.metadata.options@,
        prepare::recorded_options(i),
        i.options.options@,
        k,
    );
    declared::lemma_which_value_an_option_has(
        i.package.metadata.options@[k],
        prepare::recorded_options(i),
        i.options.options@,
    );
}

/// A license is accepted by someone who is there to accept it.
pub proof fn lemma_who_accepts_a_license(p: Package, o: RunOptions)
    ensures
        o.quiet ==> package::acceptance(p, o) is None,
        !o.license_accepted ==> package::acceptance(p, o) is None,
        o.license_accepted && !o.quiet ==> package::acceptance(p, o) == text::option_view(
            p.license_sha256,
        ),
{
}

/// Whether a run is let in: the machine has to be new enough, where its build
/// is known.
pub proof fn lemma_who_is_let_in(
    p: Package,
    o: RunOptions,
    build: Option<u32>,
    machine: Machine,
)
    ensures
        (build matches Some(b) && b < p.minimum_build) ==> entry::entered(p, o, build, machine)
            is Err && entry::entered(p, o, build, machine)->Err_0.code
            == "platform_unsupported"@,
        (build is None || build->Some_0 >= p.minimum_build) ==> entry::entered(
            p,
            o,
            build,
            machine,
        ) == package::resolved(p, o, machine),
{
}

/// What a transaction that installs says of itself.
pub proof fn lemma_what_an_install_says_of_itself(
    t: TransactionRow,
    i: Installing,
    g: Groundwork,
    id: Seq<char>,
    now: Seq<char>,
)
    requires
        prepare::is_transaction(t, i, g, id, now),
    ensures
        t.id@ == id,
        t.kind == i.kind,
        t.state == TxnState::Running,
        t.started_at@ == now,
        t.finished_at is None,
        i.existing matches Some(row) ==> t.from_version is Some && t.from_version->Some_0@
            == row.version@,
        i.existing is None ==> t.from_version is None,
        i.kind != TxnKind::Uninstall ==> t.to_version is Some && t.to_version->Some_0@
            == i.package.metadata.package.version@,
        t.package_id@ == i.package.metadata.package.id@,
        t.package_version@ == i.package.metadata.package.version@,
        t.metadata_sha256@ == i.package.metadata_sha256@,
        t.scope@ == i.options.scope.name(),
        t.install_root@ == g.install_root@,
        t.registration_key is Some && t.registration_key->Some_0@
            == g.desired@.registration_key.text(),
        text::option_view(t.accepted_license_sha256) == prepare::carried_acceptance(i),
{
}

/// What a transaction that uninstalls says of itself.
pub proof fn lemma_what_an_uninstall_says_of_itself(
    t: TransactionRow,
    u: Uninstalling,
    id: Seq<char>,
    now: Seq<char>,
)
    requires
        prepare::is_uninstall(t, u, id, now),
    ensures
        t.id@ == id,
        t.kind == TxnKind::Uninstall,
        t.state == TxnState::Running,
        t.started_at@ == now,
        t.finished_at is None,
        t.from_version is Some && t.from_version->Some_0@ == u.existing.version@,
        t.to_version is None,
        t.package_id@ == u.package.metadata.package.id@,
        t.scope@ == u.options.scope.name(),
        t.install_root@ == u.existing.install_root@,
        text::option_view(t.registration_key) == text::option_view(u.existing.registration_key),
        t.accepted_license_sha256 is None,
{
}

/// What is prepared for an install: the plan of what it reconciles, its
/// transaction, what it stops, and what its actions are told.
pub proof fn lemma_what_is_prepared(
    r: Result<Prepared, Error>,
    i: Installing,
    g: Groundwork,
    input: Reconcile,
    id: Seq<char>,
    now: Seq<char>,
)
    requires
        prepare::is_prepared(r, i, g, input, id, now),
    ensures
        r is Ok <==> reconcile::sections(input) is Ok,
        r matches Ok(p) ==> {
            let entries = text::views(i.package.metadata.quiescence@);
            &&& text::views(p.plan.operations@) == reconcile::operations(
                input,
                reconcile::sections(input)->Ok_0,
            )
            &&& p.transaction.kind == i.kind
            &&& p.transaction.id@ == id
            &&& p.context.install_root@ == g.install_root@
            &&& p.context.version@ == i.package.metadata.package.version@
            &&& p.context.product_id@ == i.package.metadata.package.id@
            &&& p.context.scope == i.options.scope
            &&& p.context.quiet == i.options.quiet
            &&& p.context.operation.name() == i.kind.name()
            &&& p.quiescence.entries@.len() + p.quiescence.skipped@.len()
                == i.package.metadata.quiescence@.len()
        },
{
    if r is Ok {
        let p = r->Ok_0;
        let declared = text::views(i.package.metadata.quiescence@);
        let operation = crate::action::plan::operation_for(i.kind);
        if declared.len() > 0 {
            crate::quiescence::lemma_which_programs_are_stopped(
                p.quiescence,
                declared,
                operation,
                g.effective@,
                0,
            );
        } else {
            reveal(Seq::filter);
            assert(text::views(p.quiescence.entries@).len() == p.quiescence.entries@.len());
            assert(text::views(p.quiescence.skipped@).len() == p.quiescence.skipped@.len());
        }
    }
}

/// How a run that ended is told: what happened to it, what was found and run,
/// and its transaction.
pub proof fn lemma_how_a_finished_run_is_told(
    r: Outcome,
    e: Ended,
    lang: Seq<char>,
    p: Package,
    txn: TransactionRow,
    findings: Seq<Finding>,
    actions: Seq<ActionInfo>,
    reboot: bool,
)
    requires
        run::is_finished(r, e, lang, p, txn, findings, actions, reboot),
    ensures
        e is Committed ==> r.outcome@ == "installed"@ && r.code@ == "ok"@ && r.exit_code == (
        if reboot {
            3010i32
        } else {
            0i32
        }),
        !(e is Committed) ==> r.exit_code != 0 && r.exit_code != 3010,
        r.findings@ == findings,
        r.actions@ == actions,
        r.reboot_required == reboot,
        r.transaction matches Some(t) && t.id@ == txn.id@ && t.kind@ == txn.kind.name() && t.state@
            == txn.state.name() && text::option_view(t.from_version) == text::option_view(
            txn.from_version,
        ) && text::option_view(t.to_version) == text::option_view(txn.to_version)
            && t.recovery_direction is None,
{
}

/// An uninstaller that runs from the state directory it is to remove moves
/// aside first.
pub proof fn lemma_when_an_uninstaller_moves_aside(
    origin: Seq<char>,
    state: Seq<char>,
    is_there: bool,
)
    ensures
        run::moves_aside(origin, state, is_there) <==> is_there && paths::parts(state).len()
            <= paths::parts(origin).len() && paths::parts(origin).take(
            paths::parts(state).len() as int,
        ) == paths::parts(state),
{
    let a = paths::parts(state);
    let b = paths::parts(origin);
    if a.is_prefix_of(b) {
        assert(b.take(a.len() as int) =~= a);
    }
}

/// Where a run writes its log: where it is told to, and otherwise with the
/// state, or, where the state goes or the run was started anew, in the
/// temporary folder.
pub proof fn lemma_where_the_log_is(
    roots: Roots,
    o: RunOptions,
    kind: Seq<char>,
    now: Seq<char>,
    machine: Machine,
)
    ensures
        ({
            let name = package::alphanumeric(now) + "-"@ + kind + ".log"@;
            let at = entry::logs_at(roots, o, kind, now, machine);
            let away = o.relaunched_from is Some || kind == "uninstall"@;
            &&& o.log_path matches Some(path) ==> at == path@
            &&& o.log_path is None && !away ==> at == target::joined(
                target::joined(roots.state_dir@, "logs"@),
                name,
            )
            &&& o.log_path is None && away && machine.folder("TEMP"@) is Some ==> at
                == target::joined(
                target::joined(machine.folder("TEMP"@)->Some_0, "TigerSetup"@),
                name,
            )
        }),
{
}

}
