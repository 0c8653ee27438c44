//! What holds of every plan.

use vstd::prelude::*;

use crate::action::definition::{ActionView, QuiescenceView};
use crate::lists;
use crate::machine::{KeyView, Machine};
use crate::plan::entries;
use crate::plan::files;
use crate::plan::keys;
use crate::plan::keys::KeysView;
use crate::plan::operation;
use crate::plan::operation::OpView;
use crate::plan::part;
use crate::plan::part::{PartView, Step};
use crate::plan::reconcile;
use crate::plan::reconcile::{Reconcile, SectionsView};
use crate::plan::rules;
use crate::plan::shortcuts;
use crate::plan::values;
use crate::plan::values::{KindsView, RecordView};
use crate::resource::registry::DesiredValueView;
use crate::state::installation::{OwnedDirectory, OwnedRegistryKey};
use crate::state::journal::OpKind;
use crate::text;

verus! {

/// Whether an operation puts something in place or keeps it.
pub open spec fn puts(k: OpKind) -> bool {
    ||| k == OpKind::CreateDirectory
    ||| k == OpKind::KeepDirectory
    ||| k == OpKind::InstallFile
    ||| k == OpKind::KeepFile
    ||| k == OpKind::CreateRegistryKey
    ||| k == OpKind::KeepRegistryKey
    ||| k == OpKind::SetRegistryValue
    ||| k == OpKind::KeepRegistryValue
    ||| k == OpKind::AddPathEntry
    ||| k == OpKind::KeepPathEntry
    ||| k == OpKind::SetEnvironmentVariable
    ||| k == OpKind::KeepEnvironmentVariable
    ||| k == OpKind::CreateShortcut
    ||| k == OpKind::KeepShortcut
    ||| k == OpKind::CreateFirewallRule
    ||| k == OpKind::KeepFirewallRule
}

/// Whether an operation takes something away.
pub open spec fn takes(k: OpKind) -> bool {
    ||| k == OpKind::RemoveRegistryValue
    ||| k == OpKind::RemoveRegistryKey
    ||| k == OpKind::RemoveFirewallRule
    ||| k == OpKind::RemoveShortcut
    ||| k == OpKind::RestoreEnvironmentVariable
    ||| k == OpKind::RemovePathEntry
    ||| k == OpKind::RemoveFile
    ||| k == OpKind::RemoveDirectory
}

/// Holds of the kinds that put in place.
pub open spec fn putting() -> spec_fn(OpKind) -> bool {
    |k: OpKind| puts(k)
}

/// Holds of the kinds that take away.
pub open spec fn taking() -> spec_fn(OpKind) -> bool {
    |k: OpKind| takes(k)
}

/// Holds of no kind.
pub open spec fn none() -> spec_fn(OpKind) -> bool {
    |k: OpKind| false
}

/// Holds of the one kind an unelevated uninstall leaves in the forward list.
pub open spec fn keeping_a_rule() -> spec_fn(OpKind) -> bool {
    |k: OpKind| k == OpKind::KeepFirewallRule
}

/// What the kinds of a section's operations are: what it wants puts in place
/// and takes nothing away, what is on record takes away and puts nothing in
/// place but the keep of a firewall rule.
pub open spec fn is_sorted(p: PartView) -> bool {
    part::all_fit(p.forward, putting()) && part::all_fit(p.removals, taking())
}

/// Kinds of values that put in place and take away.
pub open spec fn are_sound(kinds: KindsView) -> bool {
    puts(kinds.keep) && puts(kinds.set) && takes(kinds.remove)
}

proof fn lemma_both(a: Step, b: Step, f: spec_fn(OpKind) -> bool, r: spec_fn(OpKind) -> bool)
    requires
        part::both(a, b) is Ok,
        part::all_fit(a->Ok_0.forward, f),
        part::all_fit(a->Ok_0.removals, r),
        part::all_fit(b->Ok_0.forward, f),
        part::all_fit(b->Ok_0.removals, r),
    ensures
        part::all_fit(part::both(a, b)->Ok_0.forward, f),
        part::all_fit(part::both(a, b)->Ok_0.removals, r),
{
    part::lemma_fit_concat(a->Ok_0.forward, b->Ok_0.forward, f);
    part::lemma_fit_concat(a->Ok_0.removals, b->Ok_0.removals, r);
}

proof fn lemma_values(
    kinds: KindsView,
    wants: Seq<DesiredValueView>,
    records: Seq<RecordView>,
    machine: Machine,
    overwrite: bool,
)
    requires
        are_sound(kinds),
        values::section(kinds, wants, records, machine, overwrite) is Ok,
    ensures
        is_sorted(values::section(kinds, wants, records, machine, overwrite)->Ok_0),
        wants.len() == 0 ==> values::section(
            kinds,
            wants,
            records,
            machine,
            overwrite,
        )->Ok_0.forward.len() == 0,
        records.len() == 0 ==> values::section(
            kinds,
            wants,
            records,
            machine,
            overwrite,
        )->Ok_0.removals.len() == 0,
{
    let a = values::wanted_steps(kinds, wants, records, machine, overwrite);
    let b = values::owned_steps(kinds, wants, records, machine);
    part::lemma_gather_all(a, putting(), none());
    part::lemma_gather_all(b, none(), taking());
    lemma_none(part::gather(a)->Ok_0.removals);
    lemma_none(part::gather(b)->Ok_0.forward);
    lemma_both(part::gather(a), part::gather(b), putting(), taking());
}

proof fn lemma_none(ops: Seq<OpView>)
    requires
        part::all_fit(ops, none()),
    ensures
        ops.len() == 0,
{
    if ops.len() > 0 {
        assert(none()(ops[0].kind));
    }
}

proof fn lemma_directories(input: Reconcile)
    requires
        reconcile::directories_part(input) is Ok,
    ensures
        is_sorted(reconcile::directories_part(input)->Ok_0),
        reconcile::directories_part(input)->Ok_0.removals.len() == 0,
        reconcile::wants(input).directories.len() == 0 ==> reconcile::directories_part(
            input,
        )->Ok_0.forward.len() == 0,
{
    let a = files::directory_steps(
        reconcile::wants(input).directories,
        input.owned.directories@,
        input.install_root@,
        input.inspect_files,
        *input.machine,
    );
    part::lemma_gather_all(a, putting(), none());
    lemma_none(part::gather(a)->Ok_0.removals);
}

proof fn lemma_files(input: Reconcile)
    requires
        reconcile::files_part(input) is Ok,
    ensures
        is_sorted(reconcile::files_part(input)->Ok_0),
        reconcile::files_part(input)->Ok_0.removals.len() == 0,
        reconcile::wants(input).files.len() == 0 ==> reconcile::files_part(
            input,
        )->Ok_0.forward.len() == 0,
{
    let a = files::file_steps(
        reconcile::wants(input).files,
        input.owned.files@,
        input.install_root@,
        input.inspect_files,
        input.repair,
        files::held(input.payload),
        *input.machine,
    );
    part::lemma_gather_all(a, putting(), none());
    lemma_none(part::gather(a)->Ok_0.removals);
}

proof fn lemma_file_removals(input: Reconcile)
    requires
        reconcile::file_removals_part(input) is Ok,
    ensures
        reconcile::file_removals_part(input)->Ok_0.forward.len() == 0,
        part::all_fit(reconcile::file_removals_part(input)->Ok_0.removals, taking()),
        input.owned.files@.len() == 0 ==> reconcile::file_removals_part(
            input,
        )->Ok_0.removals.len() == 0,
{
    let a = files::file_removals(
        input.owned.files@,
        reconcile::wants(input).files,
        input.install_root@,
        *input.machine,
    );
    part::lemma_gather_all(a, none(), taking());
    lemma_none(part::gather(a)->Ok_0.forward);
}

proof fn lemma_path(input: Reconcile)
    requires
        reconcile::path_part(input) is Ok,
    ensures
        is_sorted(reconcile::path_part(input)->Ok_0),
        reconcile::wants(input).path_entries.len() == 0 ==> reconcile::path_part(
            input,
        )->Ok_0.forward.len() == 0,
        input.owned.path_entries@.len() == 0 ==> reconcile::path_part(
            input,
        )->Ok_0.removals.len() == 0,
{
    let key = crate::scope::environment_key(input.scope);
    let current = entries::path_at(key, *input.machine)->Ok_0;
    let a = entries::wanted_steps(
        reconcile::wants(input).path_entries,
        input.owned.path_entries@,
        key,
        current,
        *input.machine,
    );
    let b = entries::owned_steps(
        input.owned.path_entries@,
        reconcile::wants(input).path_entries,
        *input.machine,
    );
    part::lemma_gather_all(a, putting(), none());
    part::lemma_gather_all(b, none(), taking());
    lemma_none(part::gather(a)->Ok_0.removals);
    lemma_none(part::gather(b)->Ok_0.forward);
    lemma_both(part::gather(a), part::gather(b), putting(), taking());
}

proof fn lemma_shortcuts(input: Reconcile)
    requires
        reconcile::shortcuts_part(input) is Ok,
    ensures
        is_sorted(reconcile::shortcuts_part(input)->Ok_0),
        reconcile::wants(input).shortcuts.len() == 0 ==> reconcile::shortcuts_part(
            input,
        )->Ok_0.forward.len() == 0,
        input.owned.shortcuts@.len() == 0 ==> reconcile::shortcuts_part(
            input,
        )->Ok_0.removals.len() == 0,
{
    let a = shortcuts::wanted_steps(reconcile::wants(input).shortcuts, *input.machine);
    let b = shortcuts::owned_steps(
        input.owned.shortcuts@,
        reconcile::wants(input).shortcuts,
        input.install_root@,
        input.shortcut_folders@,
        *input.machine,
    );
    part::lemma_gather_all(a, putting(), none());
    part::lemma_gather_all(b, none(), taking());
    lemma_none(part::gather(a)->Ok_0.removals);
    lemma_none(part::gather(b)->Ok_0.forward);
    lemma_both(part::gather(a), part::gather(b), putting(), taking());
}

proof fn lemma_rules(input: Reconcile)
    requires
        reconcile::firewall_part(input) is Ok,
    ensures
        is_sorted(reconcile::firewall_part(input)->Ok_0),
        reconcile::wants(input).firewall_rules.len() == 0 ==> part::all_fit(
            reconcile::firewall_part(input)->Ok_0.forward,
            keeping_a_rule(),
        ),
        input.owned.firewall_rules@.len() == 0 ==> reconcile::firewall_part(
            input,
        )->Ok_0.removals.len() == 0,
{
    let a = rules::wanted_steps(
        reconcile::wants(input).firewall_rules,
        input.owned.firewall_rules@,
        *input.machine,
        input.firewall,
        input.repair,
    );
    let b = rules::owned_steps(
        input.owned.firewall_rules@,
        reconcile::wants(input).firewall_rules,
        *input.machine,
        input.firewall,
    );
    part::lemma_gather_all(a, putting(), none());
    part::lemma_gather_all(b, keeping_a_rule(), taking());
    lemma_none(part::gather(a)->Ok_0.removals);
    assert(part::all_fit(part::gather(b)->Ok_0.forward, putting()));
    lemma_both(part::gather(a), part::gather(b), putting(), taking());
    if reconcile::wants(input).firewall_rules.len() == 0 {
        lemma_both(part::gather(a), part::gather(b), keeping_a_rule(), taking());
    }
}

proof fn lemma_with_keys(
    done: KeysView,
    names: Seq<Seq<char>>,
    spelled: Seq<KeyView>,
    machine: Machine,
    owned: Seq<OwnedRegistryKey>,
)
    requires
        part::all_fit(done.operations, putting()),
    ensures
        part::all_fit(
            keys::with_keys(done, names, spelled, machine, owned).operations,
            putting(),
        ),
    decreases names.len(),
{
    if names.len() > 0 {
        lemma_with_keys(done, names.drop_last(), spelled, machine, owned);
    }
}

proof fn lemma_over_roots(
    done: KeysView,
    roots: Seq<KeyView>,
    needed: Seq<KeyView>,
    machine: Machine,
    owned: Seq<OwnedRegistryKey>,
)
    requires
        part::all_fit(done.operations, putting()),
    ensures
        part::all_fit(keys::over_roots(done, roots, needed, machine, owned).operations, putting()),
    decreases roots.len(),
{
    if roots.len() > 0 {
        lemma_over_roots(done, roots.drop_last(), needed, machine, owned);
        let before = keys::over_roots(done, roots.drop_last(), needed, machine, owned);
        let group = needed.filter(keys::rooted_at(roots.last()));
        lemma_with_keys(
            before,
            keys::implied(group, roots.last()),
            keys::chains(group, roots.last()),
            machine,
            owned,
        );
    }
}

proof fn lemma_keys(input: Reconcile)
    ensures
        part::all_fit(reconcile::keys_part(input).operations, putting()),
        part::all_fit(reconcile::registration_keys_part(input).operations, putting()),
        reconcile::wants(input).registry_values.len() == 0 ==> reconcile::keys_part(
            input,
        ).operations.len() == 0,
{
    let values = reconcile::keys_of(reconcile::wants(input).registry_values);
    let needed = keys::distinct_keys(values);
    let empty = KeysView { operations: Seq::empty(), handled: Seq::empty() };
    lemma_over_roots(
        empty,
        keys::roots_of(needed),
        needed,
        *input.machine,
        input.owned.registry_keys@,
    );
    if reconcile::wants(input).registry_values.len() == 0 {
        assert(needed =~= Seq::<KeyView>::empty());
        assert(keys::roots_of(needed) =~= Seq::<KeyView>::empty());
    }
    match input.desired {
        Some(d) => {
            let own = seq![d@.registration_key];
            let stop = crate::scope::uninstall_root(input.scope);
            lemma_with_keys(
                KeysView {
                    operations: Seq::empty(),
                    handled: reconcile::keys_part(input).handled,
                },
                keys::implied(own, stop),
                keys::chains(own, stop),
                *input.machine,
                input.owned.registry_keys@,
            );
        },
        None => {},
    }
}

/// What the run puts in place and what it takes away never mix: the forward
/// list only puts in place, the removals only take away.
pub proof fn lemma_forward_puts_and_removals_take(input: Reconcile)
    requires
        reconcile::sections(input) is Ok,
    ensures
        part::all_fit(reconcile::forward(reconcile::sections(input)->Ok_0), putting()),
        part::all_fit(reconcile::removals(input, reconcile::sections(input)->Ok_0), taking()),
{
    let s = reconcile::sections(input)->Ok_0;
    lemma_directories(input);
    lemma_files(input);
    lemma_keys(input);
    lemma_values_parts(input);
    lemma_path(input);
    lemma_shortcuts(input);
    lemma_rules(input);
    lemma_file_removals(input);
    let p = putting();
    let f1 = s.directories.forward + s.files.forward;
    part::lemma_fit_concat(s.directories.forward, s.files.forward, p);
    let f2 = f1 + s.keys.operations;
    part::lemma_fit_concat(f1, s.keys.operations, p);
    let f3 = f2 + s.values.forward;
    part::lemma_fit_concat(f2, s.values.forward, p);
    let f4 = f3 + s.path.forward;
    part::lemma_fit_concat(f3, s.path.forward, p);
    let f5 = f4 + s.environment.forward;
    part::lemma_fit_concat(f4, s.environment.forward, p);
    let f6 = f5 + s.shortcuts.forward;
    part::lemma_fit_concat(f5, s.shortcuts.forward, p);
    let f7 = f6 + s.firewall.forward;
    part::lemma_fit_concat(f6, s.firewall.forward, p);
    let f8 = f7 + s.registration_keys.operations;
    part::lemma_fit_concat(f7, s.registration_keys.operations, p);
    part::lemma_fit_concat(f8, s.registration_values.forward, p);

    let t = taking();
    let key = reconcile::registration_key(input);
    let gone = reconcile::keys_gone(input, s);
    let own = reconcile::key_removals(gone.filter(reconcile::registers_it(key)));
    let products = reconcile::key_removals(gone.filter(reconcile::is_the_products(key)));
    let directories = files::directory_removals(
        files::gone(
            input.owned.directories@,
            reconcile::wants(input).directories,
            files::preserved(
                input.owned.files@,
                reconcile::wants(input).files,
                input.install_root@,
                *input.machine,
            ),
        ),
    );
    assert(part::all_fit(own, t));
    assert(part::all_fit(products, t));
    assert(part::all_fit(directories, t));
    let r1 = s.registration_values.removals + own;
    part::lemma_fit_concat(s.registration_values.removals, own, t);
    let r2 = r1 + s.firewall.removals;
    part::lemma_fit_concat(r1, s.firewall.removals, t);
    let r3 = r2 + s.shortcuts.removals;
    part::lemma_fit_concat(r2, s.shortcuts.removals, t);
    let r4 = r3 + s.environment.removals;
    part::lemma_fit_concat(r3, s.environment.removals, t);
    let r5 = r4 + s.path.removals;
    part::lemma_fit_concat(r4, s.path.removals, t);
    let r6 = r5 + s.values.removals;
    part::lemma_fit_concat(r5, s.values.removals, t);
    let r7 = r6 + products;
    part::lemma_fit_concat(r6, products, t);
    let r8 = r7 + s.file_removals.removals;
    part::lemma_fit_concat(r7, s.file_removals.removals, t);
    part::lemma_fit_concat(r8, directories, t);
}

proof fn lemma_values_parts(input: Reconcile)
    requires
        reconcile::values_part(input) is Ok,
        reconcile::environment_part(input) is Ok,
        reconcile::registration_values_part(input) is Ok,
    ensures
        is_sorted(reconcile::values_part(input)->Ok_0),
        is_sorted(reconcile::environment_part(input)->Ok_0),
        is_sorted(reconcile::registration_values_part(input)->Ok_0),
        input.desired is None ==> {
            &&& reconcile::values_part(input)->Ok_0.forward.len() == 0
            &&& reconcile::environment_part(input)->Ok_0.forward.len() == 0
            &&& reconcile::registration_values_part(input)->Ok_0.forward.len() == 0
        },
        input.owned.registry_values@.len() == 0 ==> {
            &&& reconcile::values_part(input)->Ok_0.removals.len() == 0
            &&& reconcile::registration_values_part(input)->Ok_0.removals.len() == 0
        },
        input.owned.environment_variables@.len() == 0 ==> reconcile::environment_part(
            input,
        )->Ok_0.removals.len() == 0,
{
    let key = reconcile::registration_key(input);
    let w = reconcile::wants(input);
    let owned = input.owned.registry_values@;
    let product = values::value_records(owned.filter(reconcile::of_product(key)));
    let own = values::value_records(owned.filter(reconcile::of_registration(key)));
    let variables = values::variable_records(input.owned.environment_variables@);
    owned.lemma_filter_len(reconcile::of_product(key));
    owned.lemma_filter_len(reconcile::of_registration(key));
    lemma_values(
        values::of_registry(),
        w.registry_values,
        product,
        *input.machine,
        input.repair,
    );
    lemma_values(
        values::of_environment(),
        values::variable_values(w.environment_variables),
        variables,
        *input.machine,
        input.repair,
    );
    lemma_values(values::of_registry(), w.registration_values, own, *input.machine, true);
}

/// An action runs either ahead of everything the run changes or behind it:
/// the `pre-*` actions are the first operations of the plan and the `post-*`
/// actions the last.
pub proof fn lemma_actions_bracket_the_run(input: Reconcile, i: int)
    requires
        reconcile::sections(input) is Ok,
        0 <= i < reconcile::operations(input, reconcile::sections(input)->Ok_0).len(),
        reconcile::operations(input, reconcile::sections(input)->Ok_0)[i].kind
            == OpKind::RunAction,
    ensures
        i < input.actions@.before.len() || i >= reconcile::operations(
            input,
            reconcile::sections(input)->Ok_0,
        ).len() - input.actions@.after.len(),
{
    let s = reconcile::sections(input)->Ok_0;
    lemma_forward_puts_and_removals_take(input);
    let first = reconcile::runs(input.actions@.before);
    let put = reconcile::forward(s);
    let taken = reconcile::removals(input, s);
    let kept = reconcile::stores(input.actions@.store);
    let entries = reconcile::stores_quiescence(input.actions@.store_quiescence);
    let last = reconcile::runs(input.actions@.after);
    let ops = reconcile::operations(input, s);
    let n1 = first.len();
    let n2 = n1 + put.len();
    let n3 = n2 + taken.len();
    let n4 = n3 + kept.len();
    let n5 = n4 + entries.len();
    if n1 <= i < n2 {
        assert(ops[i] == put[i - n1]);
        assert(putting()(put[i - n1].kind));
    } else if n2 <= i < n3 {
        assert(ops[i] == taken[i - n2]);
        assert(taking()(taken[i - n2].kind));
    } else if n3 <= i < n4 {
        assert(ops[i] == kept[i - n3]);
    } else if n4 <= i < n5 {
        assert(ops[i] == entries[i - n4]);
    }
}

/// An uninstall puts nothing in place: all it does forward is to carry the
/// firewall rules it may not touch.
pub proof fn lemma_an_uninstall_writes_nothing(input: Reconcile)
    requires
        input.desired is None,
        reconcile::sections(input) is Ok,
    ensures
        part::all_fit(
            reconcile::forward(reconcile::sections(input)->Ok_0),
            keeping_a_rule(),
        ),
{
    let s = reconcile::sections(input)->Ok_0;
    lemma_directories(input);
    lemma_files(input);
    lemma_keys(input);
    lemma_values_parts(input);
    lemma_path(input);
    lemma_shortcuts(input);
    lemma_rules(input);
    assert(s.registration_keys.operations.len() == 0);
    assert(reconcile::forward(s) =~= s.firewall.forward);
}

/// Whether nothing is on record.
pub open spec fn owns_nothing(input: Reconcile) -> bool {
    &&& input.owned.files@.len() == 0
    &&& input.owned.directories@.len() == 0
    &&& input.owned.registry_keys@.len() == 0
    &&& input.owned.registry_values@.len() == 0
    &&& input.owned.path_entries@.len() == 0
    &&& input.owned.shortcuts@.len() == 0
    &&& input.owned.environment_variables@.len() == 0
    &&& input.owned.firewall_rules@.len() == 0
}

/// A first install takes nothing away.
pub proof fn lemma_a_first_install_removes_nothing(input: Reconcile)
    requires
        owns_nothing(input),
        reconcile::sections(input) is Ok,
    ensures
        reconcile::removals(input, reconcile::sections(input)->Ok_0).len() == 0,
{
    let s = reconcile::sections(input)->Ok_0;
    lemma_values_parts(input);
    lemma_path(input);
    lemma_shortcuts(input);
    lemma_rules(input);
    lemma_file_removals(input);
    let gone = reconcile::keys_gone(input, s);
    let p = keys::goes(s.registration_keys.handled);
    input.owned.registry_keys@.lemma_filter_len(p);
    lists::lemma_deep_first_is_a_permutation(
        keys::names(input.owned.registry_keys@.filter(p)),
    );
    assert(gone.len() == 0);
    let key = reconcile::registration_key(input);
    gone.lemma_filter_len(reconcile::registers_it(key));
    gone.lemma_filter_len(reconcile::is_the_products(key));
    let preserved = files::preserved(
        input.owned.files@,
        reconcile::wants(input).files,
        input.install_root@,
        *input.machine,
    );
    let wanted = reconcile::wants(input).directories;
    let q = files::goes(wanted, preserved);
    input.owned.directories@.lemma_filter_len(q);
    lists::lemma_deep_first_is_a_permutation(
        files::directory_paths(input.owned.directories@.filter(q)),
    );
}

/// The registration is the last thing put in place and the first thing taken
/// away: its values end the forward list, and its removals start the removals.
pub proof fn lemma_registration_is_last_in_and_first_out(input: Reconcile)
    requires
        reconcile::sections(input) is Ok,
    ensures
        ({
            let s = reconcile::sections(input)->Ok_0;
            let put = reconcile::forward(s);
            let values = s.registration_values;
            &&& put.skip(put.len() - values.forward.len()) == values.forward
            &&& reconcile::removals(input, s).take(values.removals.len() as int) == values.removals
        }),
{
    let s = reconcile::sections(input)->Ok_0;
    let put = reconcile::forward(s);
    let values = s.registration_values;
    assert(put.skip(put.len() - values.forward.len()) =~= values.forward);
    assert(reconcile::removals(input, s).take(values.removals.len() as int) =~= values.removals);
}

}
