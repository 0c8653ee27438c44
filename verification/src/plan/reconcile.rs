//! The reconciliation: desired, owned and actual state become one ordered
//! list of operations.
//!
//! Forward order: directories and files, product registry keys and values
//! (the typed integrations among them), PATH entries, environment variables,
//! shortcuts, firewall rules, and the Add/Remove Programs registration last —
//! a registration means "installed" to Windows. Removals follow in the
//! reverse resource order, so an uninstall unregisters first and removes the
//! install root last. A package's custom actions bracket all of that: the
//! `pre-*` actions are the first operations, the `post-*` actions the last,
//! with the records of the uninstall actions an installing transaction keeps
//! just before the `post-install` ones.

use vstd::prelude::*;

use crate::action::definition::{Action, ActionView, Quiescence, QuiescenceView};
use crate::action::plan::{ActionPlan, ActionPlanView};
use crate::error::{Error, ErrorView};
use crate::lists;
use crate::machine::{KeyPath, KeyView, Machine};
use crate::metadata::Scope;
use crate::plan::desired::{Desired, DesiredView};
use crate::plan::entries;
use crate::plan::files;
use crate::plan::files::{DesiredFile, Payload};
use crate::plan::keys;
use crate::plan::keys::{Keys, KeysView};
use crate::plan::operation;
use crate::plan::operation::{OpView, PlannedOperation};
use crate::plan::part;
use crate::plan::part::{Draft, FileFate, PartView, Step};
use crate::plan::rules;
use crate::plan::shortcuts;
use crate::plan::values;
use crate::plan::values::{Record, RecordView};
use crate::report::{Finding, FindingView};
use crate::resource::registry;
use crate::resource::registry::{DesiredValue, DesiredValueView};
use crate::scope;
use crate::state::installation::{Owned, OwnedRegistryValue};
use crate::state::journal::OpKind;
use crate::text;

verus! {

/// What a plan comes to, in numbers.
#[derive(Debug, Clone, Copy, PartialEq, Eq, Structural, Default)]
pub struct PlanCounts {
    pub kept: usize,
    pub replaced: usize,
    pub added: usize,
    pub removed: usize,
    pub directories_created: usize,
    pub directories_removed: usize,
    /// Owned files rewritten by a repair.
    pub repaired: usize,
    /// Mutating operations on registry keys and values, PATH, environment
    /// variables, shortcuts and firewall rules.
    pub resource_operations: usize,
    /// Custom actions the transaction runs.
    pub actions: usize,
    /// Uninstall-phase actions an installing transaction records.
    pub stored_actions: usize,
}

/// An ordered list of operations, what planning it found, and what it comes
/// to.
#[derive(Debug)]
pub struct Plan {
    pub operations: Vec<PlannedOperation>,
    pub findings: Vec<Finding>,
    pub counts: PlanCounts,
}

/// The inputs of one reconciliation.
#[derive(Debug)]
pub struct Reconcile<'a> {
    /// `None` for an uninstall.
    pub desired: Option<&'a Desired>,
    pub owned: &'a Owned,
    pub install_root: &'a str,
    /// Needed to compare files on disk with the payload.
    pub payload: Option<&'a Payload>,
    pub machine: &'a Machine,
    pub scope: Scope,
    /// Inspect files on disk (an installation exists); a first install writes
    /// every file without looking.
    pub inspect_files: bool,
    /// Report owned files that are rewritten as `file_repaired`.
    pub repair: bool,
    /// Where the scope keeps its shortcuts, for deciding whether a stored
    /// link is still inside it.
    pub shortcut_folders: &'a Vec<String>,
    /// Whether this run may write the firewall store; an unelevated run may
    /// not, and then every declared rule is reported as skipped and every
    /// owned one is carried forward untouched.
    pub firewall: bool,
    /// The custom actions of this run: what runs before the resource
    /// operations, what runs after them, and what an installing run records
    /// for the uninstall.
    pub actions: &'a ActionPlan,
}

/// What a run without a desired side wants: nothing.
pub open spec fn nothing_wanted(scope: Scope) -> DesiredView {
    DesiredView {
        locations: scope::located(scope),
        directories: Seq::empty(),
        files: Seq::empty(),
        registry_values: Seq::empty(),
        path_entries: Seq::empty(),
        environment_variables: Seq::empty(),
        shortcuts: Seq::empty(),
        firewall_rules: Seq::empty(),
        registration_key: scope::uninstall_root(scope),
        registration_values: Seq::empty(),
        integrations: Seq::empty(),
        findings: Seq::empty(),
    }
}

/// What the run wants.
pub open spec fn wants(input: Reconcile) -> DesiredView {
    match input.desired {
        Some(d) => d@,
        None => nothing_wanted(input.scope),
    }
}

/// The Add/Remove Programs key of the installation.
pub open spec fn registration_key(input: Reconcile) -> Option<Seq<char>> {
    match input.desired {
        Some(d) => Some(d@.registration_key.text()),
        None => text::option_view(input.owned.registration_key),
    }
}

/// Holds of the owned values of the registration.
pub open spec fn of_registration(key: Option<Seq<char>>) -> spec_fn(OwnedRegistryValue) -> bool {
    |v: OwnedRegistryValue| registry::registers(v.key@, key)
}

/// Holds of the owned values of the product.
pub open spec fn of_product(key: Option<Seq<char>>) -> spec_fn(OwnedRegistryValue) -> bool {
    |v: OwnedRegistryValue| !registry::registers(v.key@, key)
}

/// The keys of values.
pub open spec fn keys_of(values: Seq<DesiredValueView>) -> Seq<KeyView> {
    values.map_values(|v: DesiredValueView| v.key)
}

/// What each resource kind adds to a plan.
#[verifier::ext_equal]
pub struct SectionsView {
    pub directories: PartView,
    pub files: PartView,
    pub keys: KeysView,
    pub values: PartView,
    pub path: PartView,
    pub environment: PartView,
    pub shortcuts: PartView,
    pub firewall: PartView,
    pub registration_keys: KeysView,
    pub registration_values: PartView,
    pub file_removals: PartView,
}

/// What the directories add.
pub open spec fn directories_part(input: Reconcile) -> Step {
    part::gather(
        files::directory_steps(
            wants(input).directories,
            input.owned.directories@,
            input.install_root@,
            input.inspect_files,
            *input.machine,
        ),
    )
}

/// What the files add.
pub open spec fn files_part(input: Reconcile) -> Step {
    part::gather(
        files::file_steps(
            wants(input).files,
            input.owned.files@,
            input.install_root@,
            input.inspect_files,
            input.repair,
            files::held(input.payload),
            *input.machine,
        ),
    )
}

/// What the keys of the product's values add.
pub open spec fn keys_part(input: Reconcile) -> KeysView {
    keys::product_keys(
        keys_of(wants(input).registry_values),
        *input.machine,
        input.owned.registry_keys@,
    )
}

/// What the product's values add.
pub open spec fn values_part(input: Reconcile) -> Step {
    values::section(
        values::of_registry(),
        wants(input).registry_values,
        values::value_records(
            input.owned.registry_values@.filter(of_product(registration_key(input))),
        ),
        *input.machine,
        input.repair,
    )
}

/// What the PATH entries add.
pub open spec fn path_part(input: Reconcile) -> Step {
    entries::section(
        wants(input).path_entries,
        input.owned.path_entries@,
        scope::environment_key(input.scope),
        *input.machine,
    )
}

/// What the environment variables add.
pub open spec fn environment_part(input: Reconcile) -> Step {
    values::section(
        values::of_environment(),
        values::variable_values(wants(input).environment_variables),
        values::variable_records(input.owned.environment_variables@),
        *input.machine,
        input.repair,
    )
}

/// What the shortcuts add.
pub open spec fn shortcuts_part(input: Reconcile) -> Step {
    shortcuts::section(
        wants(input).shortcuts,
        input.owned.shortcuts@,
        input.install_root@,
        input.shortcut_folders@,
        *input.machine,
    )
}

/// What the firewall rules add.
pub open spec fn firewall_part(input: Reconcile) -> Step {
    rules::section(
        wants(input).firewall_rules,
        input.owned.firewall_rules@,
        *input.machine,
        input.firewall,
        input.repair,
    )
}

/// What the key of the registration adds.
pub open spec fn registration_keys_part(input: Reconcile) -> KeysView {
    let before = KeysView { operations: Seq::empty(), handled: keys_part(input).handled };
    match input.desired {
        Some(d) => keys::below(
            before,
            seq![d@.registration_key],
            scope::uninstall_root(input.scope),
            *input.machine,
            input.owned.registry_keys@,
        ),
        None => before,
    }
}

/// What the registration's values add. They are the engine's own bookkeeping
/// and never a person's setting, so the wanted data wins.
pub open spec fn registration_values_part(input: Reconcile) -> Step {
    values::section(
        values::of_registry(),
        wants(input).registration_values,
        values::value_records(
            input.owned.registry_values@.filter(of_registration(registration_key(input))),
        ),
        *input.machine,
        true,
    )
}

/// What giving back the owned files adds.
pub open spec fn file_removals_part(input: Reconcile) -> Step {
    part::gather(
        files::file_removals(
            input.owned.files@,
            wants(input).files,
            input.install_root@,
            *input.machine,
        ),
    )
}

/// What each resource kind adds, or the first failure in their order.
pub open spec fn sections(input: Reconcile) -> Result<SectionsView, ErrorView> {
    match directories_part(input) {
        Err(e) => Err(e),
        Ok(directories) => match files_part(input) {
            Err(e) => Err(e),
            Ok(files) => match values_part(input) {
                Err(e) => Err(e),
                Ok(values) => match path_part(input) {
                    Err(e) => Err(e),
                    Ok(path) => match environment_part(input) {
                        Err(e) => Err(e),
                        Ok(environment) => match shortcuts_part(input) {
                            Err(e) => Err(e),
                            Ok(shortcuts) => match firewall_part(input) {
                                Err(e) => Err(e),
                                Ok(firewall) => match registration_values_part(input) {
                                    Err(e) => Err(e),
                                    Ok(registration_values) => match file_removals_part(input) {
                                        Err(e) => Err(e),
                                        Ok(file_removals) => Ok(
                                            SectionsView {
                                                directories,
                                                files,
                                                keys: keys_part(input),
                                                values,
                                                path,
                                                environment,
                                                shortcuts,
                                                firewall,
                                                registration_keys: registration_keys_part(input),
                                                registration_values,
                                                file_removals,
                                            },
                                        ),
                                    },
                                },
                            },
                        },
                    },
                },
            },
        },
    }
}

/// Holds of the keys of the registration.
pub open spec fn registers_it(key: Option<Seq<char>>) -> spec_fn(Seq<char>) -> bool {
    |k: Seq<char>| registry::registers(k, key)
}

/// Holds of the keys of the product.
pub open spec fn is_the_products(key: Option<Seq<char>>) -> spec_fn(Seq<char>) -> bool {
    |k: Seq<char>| !registry::registers(k, key)
}

/// The removals of keys.
pub open spec fn key_removals(names: Seq<Seq<char>>) -> Seq<OpView> {
    names.map_values(|k: Seq<char>| operation::bare(OpKind::RemoveRegistryKey, k))
}

/// The running of actions.
pub open spec fn runs(actions: Seq<ActionView>) -> Seq<OpView> {
    actions.map_values(|a: ActionView| operation::action(OpKind::RunAction, a))
}

/// The keeping of actions for the uninstall.
pub open spec fn stores(actions: Seq<ActionView>) -> Seq<OpView> {
    actions.map_values(|a: ActionView| operation::action(OpKind::StoreAction, a))
}

/// The keeping of quiescence entries for the uninstall.
pub open spec fn stores_quiescence(entries: Seq<QuiescenceView>) -> Seq<OpView> {
    entries.map_values(|q: QuiescenceView| operation::quiescence(q))
}

/// The names of the keys that go, deepest first.
pub open spec fn keys_gone(input: Reconcile, s: SectionsView) -> Seq<Seq<char>> {
    keys::gone(input.owned.registry_keys@, s.registration_keys.handled)
}

/// What the run puts in place, in the forward order.
pub open spec fn forward(s: SectionsView) -> Seq<OpView> {
    s.directories.forward + s.files.forward + s.keys.operations + s.values.forward + s.path.forward
        + s.environment.forward + s.shortcuts.forward + s.firewall.forward
        + s.registration_keys.operations + s.registration_values.forward
}

/// What the run takes away, in the reverse resource order.
pub open spec fn removals(input: Reconcile, s: SectionsView) -> Seq<OpView> {
    let key = registration_key(input);
    s.registration_values.removals + key_removals(keys_gone(input, s).filter(registers_it(key)))
        + s.firewall.removals + s.shortcuts.removals + s.environment.removals + s.path.removals
        + s.values.removals + key_removals(keys_gone(input, s).filter(is_the_products(key)))
        + s.file_removals.removals + files::directory_removals(
        files::gone(
            input.owned.directories@,
            wants(input).directories,
            files::preserved(
                input.owned.files@,
                wants(input).files,
                input.install_root@,
                *input.machine,
            ),
        ),
    )
}

/// The operations of the plan.
pub open spec fn operations(input: Reconcile, s: SectionsView) -> Seq<OpView> {
    runs(input.actions@.before) + forward(s) + removals(input, s) + stores(input.actions@.store)
        + stores_quiescence(input.actions@.store_quiescence) + runs(input.actions@.after)
}

/// The findings of the plan: what resolving the desired state found, then
/// what each resource kind found.
pub open spec fn findings(input: Reconcile, s: SectionsView) -> Seq<FindingView> {
    wants(input).findings + s.directories.findings + s.files.findings + s.values.findings
        + s.path.findings + s.environment.findings + s.shortcuts.findings + s.firewall.findings
        + s.registration_values.findings + s.file_removals.findings
}

/// How many operations of a list fit.
pub open spec fn how_many(ops: Seq<OpView>, p: spec_fn(OpKind) -> bool) -> nat
    decreases ops.len(),
{
    if ops.len() == 0 {
        0
    } else {
        how_many(ops.drop_last(), p) + if p(ops.last().kind) {
            1nat
        } else {
            0nat
        }
    }
}

/// Holds of one kind.
pub open spec fn is_kind(kind: OpKind) -> spec_fn(OpKind) -> bool {
    |k: OpKind| k == kind
}

/// Whether an operation changes a registry key or value, PATH, an environment
/// variable, a shortcut or a firewall rule.
pub open spec fn changes_resource(k: OpKind) -> bool {
    ||| k == OpKind::CreateRegistryKey
    ||| k == OpKind::RemoveRegistryKey
    ||| k == OpKind::SetRegistryValue
    ||| k == OpKind::RemoveRegistryValue
    ||| k == OpKind::AddPathEntry
    ||| k == OpKind::RemovePathEntry
    ||| k == OpKind::SetEnvironmentVariable
    ||| k == OpKind::RestoreEnvironmentVariable
    ||| k == OpKind::CreateShortcut
    ||| k == OpKind::RemoveShortcut
    ||| k == OpKind::CreateFirewallRule
    ||| k == OpKind::RemoveFirewallRule
}

/// How many files met one of two fates.
pub open spec fn fated(fates: Seq<FileFate>, a: FileFate, b: FileFate) -> nat
    decreases fates.len(),
{
    if fates.len() == 0 {
        0
    } else {
        fated(fates.drop_last(), a, b) + if fates.last() == a || fates.last() == b {
            1nat
        } else {
            0nat
        }
    }
}

/// Whether numbers are those of a plan.
pub open spec fn counted(c: PlanCounts, ops: Seq<OpView>, fates: Seq<FileFate>) -> bool {
    &&& c.kept == how_many(ops, is_kind(OpKind::KeepFile))
    &&& c.replaced == fated(fates, FileFate::Replaced, FileFate::RepairedChanged)
    &&& c.added == fated(fates, FileFate::Added, FileFate::RepairedMissing)
    &&& c.removed == how_many(ops, is_kind(OpKind::RemoveFile))
    &&& c.directories_created == how_many(ops, is_kind(OpKind::CreateDirectory))
    &&& c.directories_removed == how_many(ops, is_kind(OpKind::RemoveDirectory))
    &&& c.repaired == fated(fates, FileFate::RepairedMissing, FileFate::RepairedChanged)
    &&& c.resource_operations == how_many(ops, |k: OpKind| changes_resource(k))
    &&& c.actions == how_many(ops, is_kind(OpKind::RunAction))
    &&& c.stored_actions == how_many(ops, is_kind(OpKind::StoreAction))
}

/// One list of operations behind another.
fn behind(a: Vec<PlannedOperation>, b: Vec<PlannedOperation>) -> (r: Vec<PlannedOperation>)
    ensures
        text::views(r@) == text::views(a@) + text::views(b@),
{
    let mut r = a;
    let mut b = b;
    proof {
        text::lemma_views_concat(a@, b@);
    }
    r.append(&mut b);
    r
}

/// One list of findings behind another.
fn and_then(a: Vec<Finding>, b: Vec<Finding>) -> (r: Vec<Finding>)
    ensures
        text::views(r@) == text::views(a@) + text::views(b@),
{
    let mut r = a;
    let mut b = b;
    proof {
        text::lemma_views_concat(a@, b@);
    }
    r.append(&mut b);
    r
}

fn run_all(actions: &Vec<Action>) -> (r: Vec<PlannedOperation>)
    ensures
        text::views(r@) == runs(text::views(actions@)),
{
    let ghost all = runs(text::views(actions@));
    let mut out: Vec<PlannedOperation> = Vec::new();
    let mut i: usize = 0;
    while i < actions.len()
        invariant
            i <= actions@.len(),
            all == runs(text::views(actions@)),
            out@.len() == i,
            forall|j: int| 0 <= j < i ==> #[trigger] out@[j]@ == all[j],
        decreases actions@.len() - i,
    {
        out.push(PlannedOperation::action(OpKind::RunAction, &actions[i]));
        i = i + 1;
    }
    assert(text::views(out@) =~= all);
    out
}

fn store_all(actions: &Vec<Action>) -> (r: Vec<PlannedOperation>)
    ensures
        text::views(r@) == stores(text::views(actions@)),
{
    let ghost all = stores(text::views(actions@));
    let mut out: Vec<PlannedOperation> = Vec::new();
    let mut i: usize = 0;
    while i < actions.len()
        invariant
            i <= actions@.len(),
            all == stores(text::views(actions@)),
            out@.len() == i,
            forall|j: int| 0 <= j < i ==> #[trigger] out@[j]@ == all[j],
        decreases actions@.len() - i,
    {
        out.push(PlannedOperation::action(OpKind::StoreAction, &actions[i]));
        i = i + 1;
    }
    assert(text::views(out@) =~= all);
    out
}

fn store_entries(entries: &Vec<Quiescence>) -> (r: Vec<PlannedOperation>)
    ensures
        text::views(r@) == stores_quiescence(text::views(entries@)),
{
    let ghost all = stores_quiescence(text::views(entries@));
    let mut out: Vec<PlannedOperation> = Vec::new();
    let mut i: usize = 0;
    while i < entries.len()
        invariant
            i <= entries@.len(),
            all == stores_quiescence(text::views(entries@)),
            out@.len() == i,
            forall|j: int| 0 <= j < i ==> #[trigger] out@[j]@ == all[j],
        decreases entries@.len() - i,
    {
        out.push(PlannedOperation::quiescence(&entries[i]));
        i = i + 1;
    }
    assert(text::views(out@) =~= all);
    out
}

fn records_of(values: &Vec<OwnedRegistryValue>, key: Option<&str>, registration: bool) -> (r: Vec<
    Record,
>)
    ensures
        text::views(r@) == values::value_records(
            values@.filter(
                if registration {
                    of_registration(text::option_view(key))
                } else {
                    of_product(text::option_view(key))
                },
            ),
        ),
{
    let ghost p = if registration {
        of_registration(text::option_view(key))
    } else {
        of_product(text::option_view(key))
    };
    let mut out: Vec<Record> = Vec::new();
    let mut i: usize = 0;
    proof {
        reveal(Seq::filter);
        assert(text::views(out@) =~= values::value_records(values@.take(0).filter(p)));
    }
    while i < values.len()
        invariant
            i <= values@.len(),
            p == if registration {
                of_registration(text::option_view(key))
            } else {
                of_product(text::option_view(key))
            },
            text::views(out@) == values::value_records(values@.take(i as int).filter(p)),
        decreases values@.len() - i,
    {
        proof {
            lists::lemma_filter_take(values@, p, i as int);
        }
        let ghost before = values@.take(i as int).filter(p);
        if registry::is_registration_key(values[i].key.as_str(), key) == registration {
            let record = values::record_of_value(&values[i]);
            proof {
                text::lemma_views_push(out@, record);
                assert(values::value_records(before.push(values@[i as int]))
                    =~= values::value_records(before).push(record@));
            }
            out.push(record);
        }
        i = i + 1;
    }
    assert(values@.take(i as int) =~= values@);
    out
}

fn keys_of_values(values: &Vec<DesiredValue>) -> (r: Vec<KeyPath>)
    ensures
        text::views(r@) == keys_of(text::views(values@)),
{
    let mut out: Vec<KeyPath> = Vec::new();
    let mut i: usize = 0;
    while i < values.len()
        invariant
            i <= values@.len(),
            out@.len() == i,
            forall|j: int| 0 <= j < i ==> #[trigger] out@[j]@ == values@[j].key@,
        decreases values@.len() - i,
    {
        out.push(values[i].key.clone());
        i = i + 1;
    }
    assert(text::views(out@) =~= keys_of(text::views(values@)));
    out
}

fn remove_keys(names: &Vec<String>, key: Option<&str>, registration: bool) -> (r: Vec<
    PlannedOperation,
>)
    ensures
        text::views(r@) == key_removals(
            text::views(names@).filter(
                if registration {
                    registers_it(text::option_view(key))
                } else {
                    is_the_products(text::option_view(key))
                },
            ),
        ),
{
    let ghost all = text::views(names@);
    let ghost p = if registration {
        registers_it(text::option_view(key))
    } else {
        is_the_products(text::option_view(key))
    };
    let mut out: Vec<PlannedOperation> = Vec::new();
    let mut i: usize = 0;
    proof {
        reveal(Seq::filter);
        assert(text::views(out@) =~= key_removals(all.take(0).filter(p)));
    }
    while i < names.len()
        invariant
            i <= names@.len(),
            all == text::views(names@),
            p == if registration {
                registers_it(text::option_view(key))
            } else {
                is_the_products(text::option_view(key))
            },
            text::views(out@) == key_removals(all.take(i as int).filter(p)),
        decreases names@.len() - i,
    {
        proof {
            lists::lemma_filter_take(all, p, i as int);
            assert(all[i as int] == names@[i as int]@);
        }
        let ghost before = all.take(i as int).filter(p);
        if registry::is_registration_key(names[i].as_str(), key) == registration {
            let op = PlannedOperation::new(OpKind::RemoveRegistryKey, names[i].as_str());
            proof {
                text::lemma_views_push(out@, op);
                assert(key_removals(before.push(all[i as int])) =~= key_removals(before).push(op@));
            }
            out.push(op);
        }
        i = i + 1;
    }
    assert(all.take(i as int) =~= all);
    out
}

fn changes(kind: OpKind) -> (r: bool)
    ensures
        r == changes_resource(kind),
{
    matches!(
        kind,
        OpKind::CreateRegistryKey | OpKind::RemoveRegistryKey | OpKind::SetRegistryValue
        | OpKind::RemoveRegistryValue | OpKind::AddPathEntry | OpKind::RemovePathEntry
        | OpKind::SetEnvironmentVariable | OpKind::RestoreEnvironmentVariable
        | OpKind::CreateShortcut | OpKind::RemoveShortcut | OpKind::CreateFirewallRule
        | OpKind::RemoveFirewallRule
    )
}

fn count_kind(ops: &Vec<PlannedOperation>, kind: OpKind) -> (r: usize)
    ensures
        r == how_many(text::views(ops@), is_kind(kind)),
{
    let ghost all = text::views(ops@);
    let mut n: usize = 0;
    let mut i: usize = 0;
    while i < ops.len()
        invariant
            i <= ops@.len(),
            all == text::views(ops@),
            n <= i,
            n == how_many(all.take(i as int), is_kind(kind)),
        decreases ops@.len() - i,
    {
        assert(all.take(i + 1).drop_last() =~= all.take(i as int));
        assert(all.take(i + 1).last() == ops@[i as int]@);
        if ops[i].kind == kind {
            n = n + 1;
        }
        i = i + 1;
    }
    assert(all.take(i as int) =~= all);
    n
}

fn count_changes(ops: &Vec<PlannedOperation>) -> (r: usize)
    ensures
        r == how_many(text::views(ops@), |k: OpKind| changes_resource(k)),
{
    let ghost p = |k: OpKind| changes_resource(k);
    let ghost all = text::views(ops@);
    let mut n: usize = 0;
    let mut i: usize = 0;
    while i < ops.len()
        invariant
            i <= ops@.len(),
            all == text::views(ops@),
            p == (|k: OpKind| changes_resource(k)),
            n <= i,
            n == how_many(all.take(i as int), p),
        decreases ops@.len() - i,
    {
        assert(all.take(i + 1).drop_last() =~= all.take(i as int));
        assert(all.take(i + 1).last() == ops@[i as int]@);
        if changes(ops[i].kind) {
            n = n + 1;
        }
        i = i + 1;
    }
    assert(all.take(i as int) =~= all);
    n
}

fn count_fates(fates: &Vec<FileFate>, a: FileFate, b: FileFate) -> (r: usize)
    ensures
        r == fated(fates@, a, b),
{
    let mut n: usize = 0;
    let mut i: usize = 0;
    while i < fates.len()
        invariant
            i <= fates@.len(),
            n <= i,
            n == fated(fates@.take(i as int), a, b),
        decreases fates@.len() - i,
    {
        assert(fates@.take(i + 1).drop_last() =~= fates@.take(i as int));
        if fates[i] == a || fates[i] == b {
            n = n + 1;
        }
        i = i + 1;
    }
    assert(fates@.take(i as int) =~= fates@);
    n
}

fn count(ops: &Vec<PlannedOperation>, fates: &Vec<FileFate>) -> (r: PlanCounts)
    ensures
        counted(r, text::views(ops@), fates@),
{
    PlanCounts {
        kept: count_kind(ops, OpKind::KeepFile),
        replaced: count_fates(fates, FileFate::Replaced, FileFate::RepairedChanged),
        added: count_fates(fates, FileFate::Added, FileFate::RepairedMissing),
        removed: count_kind(ops, OpKind::RemoveFile),
        directories_created: count_kind(ops, OpKind::CreateDirectory),
        directories_removed: count_kind(ops, OpKind::RemoveDirectory),
        repaired: count_fates(fates, FileFate::RepairedMissing, FileFate::RepairedChanged),
        resource_operations: count_changes(ops),
        actions: count_kind(ops, OpKind::RunAction),
        stored_actions: count_kind(ops, OpKind::StoreAction),
    }
}

fn no_desired(scope: Scope) -> (r: Desired)
    ensures
        r@ == nothing_wanted(scope),
{
    let locations = scope::locations(scope);
    let registration_key = locations.uninstall_root.clone();
    let r = Desired {
        locations,
        directories: Vec::new(),
        files: Vec::new(),
        registry_values: Vec::new(),
        path_entries: Vec::new(),
        environment_variables: Vec::new(),
        shortcuts: Vec::new(),
        firewall_rules: Vec::new(),
        registration_key,
        registration_values: Vec::new(),
        integrations: Vec::new(),
        findings: Vec::new(),
    };
    assert(r@ =~= nothing_wanted(scope));
    r
}

fn copy_findings(v: &Vec<Finding>) -> (r: Vec<Finding>)
    ensures
        text::views(r@) == text::views(v@),
{
    let mut out: Vec<Finding> = Vec::new();
    let mut i: usize = 0;
    while i < v.len()
        invariant
            i <= v@.len(),
            out@ == v@.take(i as int),
        decreases v@.len() - i,
    {
        out.push(v[i].copy());
        assert(out@ =~= v@.take(i + 1));
        i = i + 1;
    }
    assert(v@.take(i as int) =~= v@);
    out
}

/// Whether a result is what a reconciliation comes to: the operations of every
/// section in order, what planning them found and what they come to, or the
/// first failure.
pub open spec fn is_plan(r: Result<Plan, Error>, input: Reconcile) -> bool {
    match (r, sections(input)) {
        (Ok(plan), Ok(s)) => {
            &&& text::views(plan.operations@) == operations(input, s)
            &&& text::views(plan.findings@) == findings(input, s)
            &&& counted(plan.counts, operations(input, s), s.files.fates)
        },
        (Err(e), Err(s)) => e@ == s,
        _ => false,
    }
}

/// Reconciles desired and owned state into operations.
pub fn reconcile(input: &Reconcile) -> (r: Result<Plan, Error>)
    ensures
        is_plan(r, *input),
{
    let none = no_desired(input.scope);
    let desired = match input.desired {
        Some(d) => d,
        None => &none,
    };
    assert(desired@ == wants(*input));
    let owned = input.owned;
    let machine = input.machine;
    let root = input.install_root;
    let locations = scope::locations(input.scope);
    let own_key = desired.registration_key.to_string();
    let key: Option<&str> = match input.desired {
        Some(_) => Some(own_key.as_str()),
        None => match &owned.registration_key {
            Some(k) => Some(k.as_str()),
            None => None,
        },
    };
    assert(text::option_view(key) == registration_key(*input));

    let directories = files::reconcile_directories(
        &desired.directories,
        &owned.directories,
        root,
        input.inspect_files,
        machine,
    )?;
    let files = files::reconcile_files(
        &desired.files,
        &owned.files,
        root,
        input.inspect_files,
        input.repair,
        input.payload,
        machine,
    )?;
    let needed = keys_of_values(&desired.registry_values);
    let product_keys = keys::reconcile_product_keys(
        &needed,
        &locations,
        machine,
        &owned.registry_keys,
    );
    let registry_kinds = values::registry_kinds();
    let product_records = records_of(&owned.registry_values, key, false);
    let product_values = values::reconcile_values(
        &registry_kinds,
        &desired.registry_values,
        &product_records,
        machine,
        input.repair,
    )?;
    let path = entries::reconcile_path(
        &desired.path_entries,
        &owned.path_entries,
        &locations.environment_key,
        machine,
    )?;
    let environment_kinds = values::environment_kinds();
    let variables = values::values_of_variables(&desired.environment_variables);
    let variable_records = values::records_of_variables(&owned.environment_variables);
    let environment = values::reconcile_values(
        &environment_kinds,
        &variables,
        &variable_records,
        machine,
        input.repair,
    )?;
    let shortcuts = shortcuts::reconcile_shortcuts(
        &desired.shortcuts,
        &owned.shortcuts,
        root,
        input.shortcut_folders,
        machine,
    )?;
    let firewall = rules::reconcile_firewall(
        &desired.firewall_rules,
        &owned.firewall_rules,
        machine,
        input.firewall,
        input.repair,
    )?;
    let mut registration_keys = Keys {
        operations: Vec::new(),
        handled: text::copy_list(&product_keys.handled),
    };
    assert(registration_keys@ =~= (KeysView {
        operations: Seq::empty(),
        handled: product_keys@.handled,
    }));
    if input.desired.is_some() {
        let mut own: Vec<KeyPath> = Vec::new();
        own.push(desired.registration_key.clone());
        assert(text::views(own@) =~= seq![desired@.registration_key]);
        registration_keys.reconcile_keys(
            &own,
            &locations.uninstall_root,
            machine,
            &owned.registry_keys,
        );
    }
    let registration_records = records_of(&owned.registry_values, key, true);
    let registration_values = values::reconcile_values(
        &registry_kinds,
        &desired.registration_values,
        &registration_records,
        machine,
        true,
    )?;
    let (file_removals, preserved) = files::remove_files(
        &owned.files,
        &desired.files,
        root,
        machine,
    )?;
    let gone = keys::gone_of(&owned.registry_keys, &registration_keys.handled);
    let ghost s = sections(*input)->Ok_0;
    assert(sections(*input) is Ok);
    assert(s == SectionsView {
        directories: directories@,
        files: files@,
        keys: product_keys@,
        values: product_values@,
        path: path@,
        environment: environment@,
        shortcuts: shortcuts@,
        firewall: firewall@,
        registration_keys: registration_keys@,
        registration_values: registration_values@,
        file_removals: file_removals@,
    });

    let ops = run_all(&input.actions.before);
    let put = directories.forward;
    let put = behind(put, files.forward);
    let put = behind(put, product_keys.operations);
    let put = behind(put, product_values.forward);
    let put = behind(put, path.forward);
    let put = behind(put, environment.forward);
    let put = behind(put, shortcuts.forward);
    let put = behind(put, firewall.forward);
    let put = behind(put, registration_keys.operations);
    let put = behind(put, registration_values.forward);
    assert(text::views(put@) == forward(s));
    let taken = registration_values.removals;
    let taken = behind(taken, remove_keys(&gone, key, true));
    let taken = behind(taken, firewall.removals);
    let taken = behind(taken, shortcuts.removals);
    let taken = behind(taken, environment.removals);
    let taken = behind(taken, path.removals);
    let taken = behind(taken, product_values.removals);
    let taken = behind(taken, remove_keys(&gone, key, false));
    let taken = behind(taken, file_removals.removals);
    let taken = behind(
        taken,
        files::remove_directories(&owned.directories, &desired.directories, &preserved),
    );
    assert(text::views(taken@) == removals(*input, s));
    let ops = behind(ops, put);
    let ops = behind(ops, taken);
    let ops = behind(ops, store_all(&input.actions.store));
    let ops = behind(ops, store_entries(&input.actions.store_quiescence));
    let ops = behind(ops, run_all(&input.actions.after));
    let found = copy_findings(&desired.findings);
    let found = and_then(found, directories.findings);
    let found = and_then(found, files.findings);
    let found = and_then(found, product_values.findings);
    let found = and_then(found, path.findings);
    let found = and_then(found, environment.findings);
    let found = and_then(found, shortcuts.findings);
    let found = and_then(found, firewall.findings);
    let found = and_then(found, registration_values.findings);
    let found = and_then(found, file_removals.findings);
    let counts = count(&ops, &files.fates);
    Ok(Plan { operations: ops, findings: found, counts })
}

}
