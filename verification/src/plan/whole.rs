//! What holds of a plan as a whole: everything wanted and everything owned has
//! its part in it, in the order the resources depend on each other.

use vstd::prelude::*;

use crate::error::{Error, ErrorView};
use crate::lists;
use crate::machine::Machine;
use crate::plan::entries;
use crate::plan::files;
use crate::plan::keys;
use crate::plan::operation::OpView;
use crate::plan::part;
use crate::plan::part::{FileFate, PartView, Step};
use crate::plan::reconcile;
use crate::plan::reconcile::{Plan, PlanCounts, Reconcile, SectionsView};
use crate::plan::rules;
use crate::plan::shortcuts;
use crate::plan::values;
use crate::report::FindingView;
use crate::resource::registry;
use crate::state::journal::OpKind;
use crate::text;

verus! {

/// Whether what a step adds is in a plan.
pub open spec fn carries(ops: Seq<OpView>, findings: Seq<FindingView>, step: Step) -> bool {
    &&& step is Ok
    &&& forall|j: int|
        0 <= j < step->Ok_0.forward.len() ==> ops.contains(#[trigger] step->Ok_0.forward[j])
    &&& forall|j: int|
        0 <= j < step->Ok_0.removals.len() ==> ops.contains(#[trigger] step->Ok_0.removals[j])
    &&& forall|j: int|
        0 <= j < step->Ok_0.findings.len() ==> findings.contains(#[trigger] step->Ok_0.findings[j])
}

/// Whether a part holds what a step adds.
pub open spec fn has_step(p: PartView, step: Step) -> bool {
    &&& step is Ok
    &&& forall|j: int|
        0 <= j < step->Ok_0.forward.len() ==> p.forward.contains(#[trigger] step->Ok_0.forward[j])
    &&& forall|j: int|
        0 <= j < step->Ok_0.removals.len() ==> p.removals.contains(
            #[trigger] step->Ok_0.removals[j],
        )
    &&& forall|j: int|
        0 <= j < step->Ok_0.findings.len() ==> p.findings.contains(
            #[trigger] step->Ok_0.findings[j],
        )
}

proof fn lemma_in_concat<T>(a: Seq<T>, b: Seq<T>, x: T)
    ensures
        a.contains(x) || b.contains(x) ==> (a + b).contains(x),
{
    if a.contains(x) {
        let i = choose|i: int| 0 <= i < a.len() && a[i] == x;
        assert((a + b)[i] == x);
    }
    if b.contains(x) {
        let i = choose|i: int| 0 <= i < b.len() && b[i] == x;
        assert((a + b)[a.len() + i] == x);
    }
}

proof fn lemma_has_step_grows(p: PartView, more: PartView, step: Step)
    requires
        has_step(p, step) || has_step(more, step),
    ensures
        has_step(p.plus(more), step),
{
    let whole = p.plus(more);
    let s = step->Ok_0;
    assert forall|j: int| 0 <= j < s.forward.len() implies whole.forward.contains(
        #[trigger] s.forward[j],
    ) by {
        lemma_in_concat(p.forward, more.forward, s.forward[j]);
    }
    assert forall|j: int| 0 <= j < s.removals.len() implies whole.removals.contains(
        #[trigger] s.removals[j],
    ) by {
        lemma_in_concat(p.removals, more.removals, s.removals[j]);
    }
    assert forall|j: int| 0 <= j < s.findings.len() implies whole.findings.contains(
        #[trigger] s.findings[j],
    ) by {
        lemma_in_concat(p.findings, more.findings, s.findings[j]);
    }
}

/// What every step adds is in what the steps come to.
pub proof fn lemma_gathering_loses_nothing(steps: Seq<Step>, i: int)
    requires
        part::gather(steps) is Ok,
        0 <= i < steps.len(),
    ensures
        has_step(part::gather(steps)->Ok_0, steps[i]),
    decreases steps.len(),
{
    let before = steps.drop_last();
    let p = part::gather(before)->Ok_0;
    let last = steps.last()->Ok_0;
    if i < before.len() {
        assert(before[i] == steps[i]);
        lemma_gathering_loses_nothing(before, i);
        lemma_has_step_grows(p, last, steps[i]);
    } else {
        assert(has_step(last, steps[i])) by {
            assert forall|j: int| 0 <= j < last.forward.len() implies last.forward.contains(
                #[trigger] last.forward[j],
            ) by {}
        }
        lemma_has_step_grows(p, last, steps[i]);
    }
}

/// What the steps come to is added by one of them, and as many operations as
/// they add together.
pub proof fn lemma_gathering_adds_nothing(steps: Seq<Step>)
    requires
        part::gather(steps) is Ok,
    ensures
        forall|op: OpView| #[trigger]
            part::gather(steps)->Ok_0.forward.contains(op) ==> exists|i: int|
                0 <= i < steps.len() && (#[trigger] steps[i])->Ok_0.forward.contains(op),
        forall|op: OpView| #[trigger]
            part::gather(steps)->Ok_0.removals.contains(op) ==> exists|i: int|
                0 <= i < steps.len() && (#[trigger] steps[i])->Ok_0.removals.contains(op),
        (forall|i: int|
            0 <= i < steps.len() ==> (#[trigger] steps[i])->Ok_0.forward.len() == 1)
            ==> part::gather(steps)->Ok_0.forward.len() == steps.len(),
    decreases steps.len(),
{
    if steps.len() > 0 {
        let before = steps.drop_last();
        lemma_gathering_adds_nothing(before);
        let p = part::gather(before)->Ok_0;
        let last = steps.last()->Ok_0;
        let whole = part::gather(steps)->Ok_0;
        assert forall|op: OpView| #[trigger] whole.forward.contains(op) implies exists|i: int|
            0 <= i < steps.len() && (#[trigger] steps[i])->Ok_0.forward.contains(op) by {
            let k = choose|k: int| 0 <= k < whole.forward.len() && whole.forward[k] == op;
            if k < p.forward.len() {
                assert(p.forward[k] == op);
                assert(p.forward.contains(op));
                let i = choose|i: int|
                    0 <= i < before.len() && (#[trigger] before[i])->Ok_0.forward.contains(op);
                assert(steps[i] == before[i]);
            } else {
                assert(last.forward[k - p.forward.len()] == op);
                assert(steps[steps.len() - 1]->Ok_0.forward.contains(op));
            }
        }
        assert forall|op: OpView| #[trigger] whole.removals.contains(op) implies exists|i: int|
            0 <= i < steps.len() && (#[trigger] steps[i])->Ok_0.removals.contains(op) by {
            let k = choose|k: int| 0 <= k < whole.removals.len() && whole.removals[k] == op;
            if k < p.removals.len() {
                assert(p.removals[k] == op);
                assert(p.removals.contains(op));
                let i = choose|i: int|
                    0 <= i < before.len() && (#[trigger] before[i])->Ok_0.removals.contains(op);
                assert(steps[i] == before[i]);
            } else {
                assert(last.removals[k - p.removals.len()] == op);
                assert(steps[steps.len() - 1]->Ok_0.removals.contains(op));
            }
        }
        if forall|i: int| 0 <= i < steps.len() ==> (#[trigger] steps[i])->Ok_0.forward.len() == 1 {
            assert forall|i: int| 0 <= i < before.len() implies (#[trigger] before[
                i
            ])->Ok_0.forward.len() == 1 by {
                assert(before[i] == steps[i]);
            }
            assert(steps[steps.len() - 1]->Ok_0.forward.len() == 1);
        }
    }
}

/// What each section adds is in the plan.
proof fn lemma_sections_are_carried(input: Reconcile, step: Step)
    requires
        reconcile::sections(input) is Ok,
        ({
            let s = reconcile::sections(input)->Ok_0;
            ||| has_step(s.directories, step) && step->Ok_0.removals.len() == 0
            ||| has_step(s.files, step) && step->Ok_0.removals.len() == 0
            ||| has_step(s.values, step)
            ||| has_step(s.path, step)
            ||| has_step(s.environment, step)
            ||| has_step(s.shortcuts, step)
            ||| has_step(s.firewall, step)
            ||| has_step(s.registration_values, step)
            ||| has_step(s.file_removals, step) && step->Ok_0.forward.len() == 0
        }),
    ensures
        carries(
            reconcile::operations(input, reconcile::sections(input)->Ok_0),
            reconcile::findings(input, reconcile::sections(input)->Ok_0),
            step,
        ),
{
    let s = reconcile::sections(input)->Ok_0;
    let ops = reconcile::operations(input, s);
    let found = reconcile::findings(input, s);
    let t = step->Ok_0;
    assert forall|j: int| 0 <= j < t.forward.len() implies ops.contains(
        #[trigger] t.forward[j],
    ) by {
        lemma_forward_is_planned(input, t.forward[j]);
    }
    assert forall|j: int| 0 <= j < t.removals.len() implies ops.contains(
        #[trigger] t.removals[j],
    ) by {
        lemma_removals_are_planned(input, t.removals[j]);
    }
    assert forall|j: int| 0 <= j < t.findings.len() implies found.contains(
        #[trigger] t.findings[j],
    ) by {
        lemma_findings_are_reported(input, t.findings[j]);
    }
}

proof fn lemma_forward_is_planned(input: Reconcile, op: OpView)
    requires
        reconcile::sections(input) is Ok,
        ({
            let s = reconcile::sections(input)->Ok_0;
            ||| s.directories.forward.contains(op)
            ||| s.files.forward.contains(op)
            ||| s.keys.operations.contains(op)
            ||| s.values.forward.contains(op)
            ||| s.path.forward.contains(op)
            ||| s.environment.forward.contains(op)
            ||| s.shortcuts.forward.contains(op)
            ||| s.firewall.forward.contains(op)
            ||| s.registration_keys.operations.contains(op)
            ||| s.registration_values.forward.contains(op)
        }),
    ensures
        reconcile::operations(input, reconcile::sections(input)->Ok_0).contains(op),
{
    let s = reconcile::sections(input)->Ok_0;
    let f1 = s.directories.forward + s.files.forward;
    let f2 = f1 + s.keys.operations;
    let f3 = f2 + s.values.forward;
    let f4 = f3 + s.path.forward;
    let f5 = f4 + s.environment.forward;
    let f6 = f5 + s.shortcuts.forward;
    let f7 = f6 + s.firewall.forward;
    let f8 = f7 + s.registration_keys.operations;
    lemma_in_concat(s.directories.forward, s.files.forward, op);
    lemma_in_concat(f1, s.keys.operations, op);
    lemma_in_concat(f2, s.values.forward, op);
    lemma_in_concat(f3, s.path.forward, op);
    lemma_in_concat(f4, s.environment.forward, op);
    lemma_in_concat(f5, s.shortcuts.forward, op);
    lemma_in_concat(f6, s.firewall.forward, op);
    lemma_in_concat(f7, s.registration_keys.operations, op);
    lemma_in_concat(f8, s.registration_values.forward, op);
    lemma_lists_are_planned(input, op);
}

/// What is put in place, what is taken away and what is run or stored is in
/// the plan.
proof fn lemma_lists_are_planned(input: Reconcile, op: OpView)
    requires
        reconcile::sections(input) is Ok,
    ensures
        ({
            let s = reconcile::sections(input)->Ok_0;
            (reconcile::forward(s).contains(op) || reconcile::removals(input, s).contains(op)
                || reconcile::runs(input.actions@.before).contains(op) || reconcile::stores(
                input.actions@.store,
            ).contains(op) || reconcile::stores_quiescence(
                input.actions@.store_quiescence,
            ).contains(op) || reconcile::runs(input.actions@.after).contains(op))
                ==> reconcile::operations(input, s).contains(op)
        }),
{
    let s = reconcile::sections(input)->Ok_0;
    let a = reconcile::runs(input.actions@.before);
    let b = a + reconcile::forward(s);
    let c = b + reconcile::removals(input, s);
    let d = c + reconcile::stores(input.actions@.store);
    let e = d + reconcile::stores_quiescence(input.actions@.store_quiescence);
    lemma_in_concat(a, reconcile::forward(s), op);
    lemma_in_concat(b, reconcile::removals(input, s), op);
    lemma_in_concat(c, reconcile::stores(input.actions@.store), op);
    lemma_in_concat(d, reconcile::stores_quiescence(input.actions@.store_quiescence), op);
    lemma_in_concat(e, reconcile::runs(input.actions@.after), op);
}

proof fn lemma_removals_are_planned(input: Reconcile, op: OpView)
    requires
        reconcile::sections(input) is Ok,
        ({
            let s = reconcile::sections(input)->Ok_0;
            ||| s.registration_values.removals.contains(op)
            ||| s.firewall.removals.contains(op)
            ||| s.shortcuts.removals.contains(op)
            ||| s.environment.removals.contains(op)
            ||| s.path.removals.contains(op)
            ||| s.values.removals.contains(op)
            ||| s.file_removals.removals.contains(op)
            ||| gone_directories(input).contains(op)
            ||| gone_keys(input, s).contains(op)
        }),
    ensures
        reconcile::operations(input, reconcile::sections(input)->Ok_0).contains(op),
{
    let s = reconcile::sections(input)->Ok_0;
    let key = reconcile::registration_key(input);
    let gone = reconcile::keys_gone(input, s);
    let own = reconcile::key_removals(gone.filter(reconcile::registers_it(key)));
    let products = reconcile::key_removals(gone.filter(reconcile::is_the_products(key)));
    let directories = gone_directories(input);
    if gone_keys(input, s).contains(op) {
        let k = choose|k: int| 0 <= k < gone_keys(input, s).len() && gone_keys(input, s)[k] == op;
        assert(op == crate::plan::operation::bare(OpKind::RemoveRegistryKey, gone[k]));
        if registry::registers(gone[k], key) {
            lists::lemma_filter_holds(gone, reconcile::registers_it(key), k);
            let f = gone.filter(reconcile::registers_it(key));
            let m = choose|m: int| 0 <= m < f.len() && f[m] == gone[k];
            assert(own[m] == op);
        } else {
            lists::lemma_filter_holds(gone, reconcile::is_the_products(key), k);
            let f = gone.filter(reconcile::is_the_products(key));
            let m = choose|m: int| 0 <= m < f.len() && f[m] == gone[k];
            assert(products[m] == op);
        }
    }
    let r1 = s.registration_values.removals + own;
    let r2 = r1 + s.firewall.removals;
    let r3 = r2 + s.shortcuts.removals;
    let r4 = r3 + s.environment.removals;
    let r5 = r4 + s.path.removals;
    let r6 = r5 + s.values.removals;
    let r7 = r6 + products;
    let r8 = r7 + s.file_removals.removals;
    lemma_in_concat(s.registration_values.removals, own, op);
    lemma_in_concat(r1, s.firewall.removals, op);
    lemma_in_concat(r2, s.shortcuts.removals, op);
    lemma_in_concat(r3, s.environment.removals, op);
    lemma_in_concat(r4, s.path.removals, op);
    lemma_in_concat(r5, s.values.removals, op);
    lemma_in_concat(r6, products, op);
    lemma_in_concat(r7, s.file_removals.removals, op);
    lemma_in_concat(r8, directories, op);
    lemma_lists_are_planned(input, op);
}

/// The removals of the directories that go.
pub open spec fn gone_directories(input: Reconcile) -> Seq<OpView> {
    files::directory_removals(
        files::gone(
            input.owned.directories@,
            reconcile::wants(input).directories,
            files::preserved(
                input.owned.files@,
                reconcile::wants(input).files,
                input.install_root@,
                *input.machine,
            ),
        ),
    )
}

/// The removals of the keys that go.
pub open spec fn gone_keys(input: Reconcile, s: SectionsView) -> Seq<OpView> {
    reconcile::key_removals(reconcile::keys_gone(input, s))
}

proof fn lemma_findings_are_reported(input: Reconcile, f: FindingView)
    requires
        reconcile::sections(input) is Ok,
        ({
            let s = reconcile::sections(input)->Ok_0;
            ||| s.directories.findings.contains(f)
            ||| s.files.findings.contains(f)
            ||| s.values.findings.contains(f)
            ||| s.path.findings.contains(f)
            ||| s.environment.findings.contains(f)
            ||| s.shortcuts.findings.contains(f)
            ||| s.firewall.findings.contains(f)
            ||| s.registration_values.findings.contains(f)
            ||| s.file_removals.findings.contains(f)
            ||| reconcile::wants(input).findings.contains(f)
        }),
    ensures
        reconcile::findings(input, reconcile::sections(input)->Ok_0).contains(f),
{
    let s = reconcile::sections(input)->Ok_0;
    let a = reconcile::wants(input).findings;
    let b = a + s.directories.findings;
    let c = b + s.files.findings;
    let d = c + s.values.findings;
    let e = d + s.path.findings;
    let g = e + s.environment.findings;
    let h = g + s.shortcuts.findings;
    let i = h + s.firewall.findings;
    let j = i + s.registration_values.findings;
    lemma_in_concat(a, s.directories.findings, f);
    lemma_in_concat(b, s.files.findings, f);
    lemma_in_concat(c, s.values.findings, f);
    lemma_in_concat(d, s.path.findings, f);
    lemma_in_concat(e, s.environment.findings, f);
    lemma_in_concat(g, s.shortcuts.findings, f);
    lemma_in_concat(h, s.firewall.findings, f);
    lemma_in_concat(i, s.registration_values.findings, f);
    lemma_in_concat(j, s.file_removals.findings, f);
}

/// Every wanted file has its part in the plan.
pub proof fn lemma_every_wanted_file_is_planned(input: Reconcile, i: int)
    requires
        reconcile::sections(input) is Ok,
        0 <= i < reconcile::wants(input).files.len(),
    ensures
        carries(
            reconcile::operations(input, reconcile::sections(input)->Ok_0),
            reconcile::findings(input, reconcile::sections(input)->Ok_0),
            files::file_step(
                reconcile::wants(input).files[i],
                input.owned.files@,
                input.install_root@,
                input.inspect_files,
                input.repair,
                files::held(input.payload),
                *input.machine,
            ),
        ),
{
    let steps = files::file_steps(
        reconcile::wants(input).files,
        input.owned.files@,
        input.install_root@,
        input.inspect_files,
        input.repair,
        files::held(input.payload),
        *input.machine,
    );
    lemma_gathering_loses_nothing(steps, i);
    lemma_sections_are_carried(input, steps[i]);
}

/// Every wanted directory has its part in the plan.
pub proof fn lemma_every_wanted_directory_is_planned(input: Reconcile, i: int)
    requires
        reconcile::sections(input) is Ok,
        0 <= i < reconcile::wants(input).directories.len(),
    ensures
        carries(
            reconcile::operations(input, reconcile::sections(input)->Ok_0),
            reconcile::findings(input, reconcile::sections(input)->Ok_0),
            files::directory_step(
                reconcile::wants(input).directories[i],
                input.owned.directories@,
                input.install_root@,
                input.inspect_files,
                *input.machine,
            ),
        ),
{
    let steps = files::directory_steps(
        reconcile::wants(input).directories,
        input.owned.directories@,
        input.install_root@,
        input.inspect_files,
        *input.machine,
    );
    lemma_gathering_loses_nothing(steps, i);
    lemma_sections_are_carried(input, steps[i]);
}

/// Every owned file has its part in the plan.
pub proof fn lemma_every_owned_file_is_planned(input: Reconcile, i: int)
    requires
        reconcile::sections(input) is Ok,
        0 <= i < input.owned.files@.len(),
    ensures
        carries(
            reconcile::operations(input, reconcile::sections(input)->Ok_0),
            reconcile::findings(input, reconcile::sections(input)->Ok_0),
            files::file_removal(
                input.owned.files@[i],
                reconcile::wants(input).files,
                input.install_root@,
                *input.machine,
            ),
        ),
{
    let steps = files::file_removals(
        input.owned.files@,
        reconcile::wants(input).files,
        input.install_root@,
        *input.machine,
    );
    lemma_gathering_loses_nothing(steps, i);
    lemma_sections_are_carried(input, steps[i]);
}

/// Every wanted shortcut and every owned one has its part in the plan.
pub proof fn lemma_every_shortcut_is_planned(input: Reconcile, i: int, k: int)
    requires
        reconcile::sections(input) is Ok,
    ensures
        0 <= i < reconcile::wants(input).shortcuts.len() ==> carries(
            reconcile::operations(input, reconcile::sections(input)->Ok_0),
            reconcile::findings(input, reconcile::sections(input)->Ok_0),
            shortcuts::wanted_step(reconcile::wants(input).shortcuts[i], *input.machine),
        ),
        0 <= k < input.owned.shortcuts@.len() ==> carries(
            reconcile::operations(input, reconcile::sections(input)->Ok_0),
            reconcile::findings(input, reconcile::sections(input)->Ok_0),
            shortcuts::owned_step(
                input.owned.shortcuts@[k],
                reconcile::wants(input).shortcuts,
                input.install_root@,
                input.shortcut_folders@,
                *input.machine,
            ),
        ),
{
    let a = shortcuts::wanted_steps(reconcile::wants(input).shortcuts, *input.machine);
    let b = shortcuts::owned_steps(
        input.owned.shortcuts@,
        reconcile::wants(input).shortcuts,
        input.install_root@,
        input.shortcut_folders@,
        *input.machine,
    );
    lemma_two_lists(input, a, b, i, k, reconcile::sections(input)->Ok_0.shortcuts);
}

/// A section of wanted and owned steps.
proof fn lemma_two_lists(
    input: Reconcile,
    a: Seq<Step>,
    b: Seq<Step>,
    i: int,
    k: int,
    section: PartView,
)
    requires
        reconcile::sections(input) is Ok,
        part::both(part::gather(a), part::gather(b)) == Ok::<PartView, ErrorView>(
            section,
        ),
        ({
            let s = reconcile::sections(input)->Ok_0;
            ||| section == s.values
            ||| section == s.path
            ||| section == s.environment
            ||| section == s.shortcuts
            ||| section == s.firewall
            ||| section == s.registration_values
        }),
    ensures
        0 <= i < a.len() ==> carries(
            reconcile::operations(input, reconcile::sections(input)->Ok_0),
            reconcile::findings(input, reconcile::sections(input)->Ok_0),
            a[i],
        ),
        0 <= k < b.len() ==> carries(
            reconcile::operations(input, reconcile::sections(input)->Ok_0),
            reconcile::findings(input, reconcile::sections(input)->Ok_0),
            b[k],
        ),
{
    let x = part::gather(a)->Ok_0;
    let y = part::gather(b)->Ok_0;
    if 0 <= i < a.len() {
        lemma_gathering_loses_nothing(a, i);
        lemma_has_step_grows(x, y, a[i]);
        lemma_sections_are_carried(input, a[i]);
    }
    if 0 <= k < b.len() {
        lemma_gathering_loses_nothing(b, k);
        lemma_has_step_grows(x, y, b[k]);
        lemma_sections_are_carried(input, b[k]);
    }
}

/// Every wanted PATH entry and every owned one has its part in the plan.
pub proof fn lemma_every_path_entry_is_planned(input: Reconcile, i: int, k: int)
    requires
        reconcile::sections(input) is Ok,
    ensures
        ({
            let key = crate::scope::environment_key(input.scope);
            &&& entries::path_at(key, *input.machine) is Ok
            &&& 0 <= i < reconcile::wants(input).path_entries.len() ==> carries(
                reconcile::operations(input, reconcile::sections(input)->Ok_0),
                reconcile::findings(input, reconcile::sections(input)->Ok_0),
                entries::wanted_step(
                    reconcile::wants(input).path_entries[i],
                    input.owned.path_entries@,
                    key,
                    entries::path_at(key, *input.machine)->Ok_0,
                    *input.machine,
                ),
            )
            &&& 0 <= k < input.owned.path_entries@.len() ==> carries(
                reconcile::operations(input, reconcile::sections(input)->Ok_0),
                reconcile::findings(input, reconcile::sections(input)->Ok_0),
                entries::owned_step(
                    input.owned.path_entries@[k],
                    reconcile::wants(input).path_entries,
                    *input.machine,
                ),
            )
        }),
{
    let key = crate::scope::environment_key(input.scope);
    let current = entries::path_at(key, *input.machine)->Ok_0;
    let a = entries::wanted_steps(
        reconcile::wants(input).path_entries,
        input.owned.path_entries@,
        key,
        current,
        *input.machine,
    );
    let b = entries::owned_steps(
        input.owned.path_entries@,
        reconcile::wants(input).path_entries,
        *input.machine,
    );
    lemma_two_lists(input, a, b, i, k, reconcile::sections(input)->Ok_0.path);
}

/// Every wanted firewall rule and every owned one has its part in the plan.
pub proof fn lemma_every_rule_is_planned(input: Reconcile, i: int, k: int)
    requires
        reconcile::sections(input) is Ok,
    ensures
        0 <= i < reconcile::wants(input).firewall_rules.len() ==> carries(
            reconcile::operations(input, reconcile::sections(input)->Ok_0),
            reconcile::findings(input, reconcile::sections(input)->Ok_0),
            rules::wanted_step(
                reconcile::wants(input).firewall_rules[i],
                input.owned.firewall_rules@,
                *input.machine,
                input.firewall,
                input.repair,
            ),
        ),
        0 <= k < input.owned.firewall_rules@.len() ==> carries(
            reconcile::operations(input, reconcile::sections(input)->Ok_0),
            reconcile::findings(input, reconcile::sections(input)->Ok_0),
            rules::owned_step(
                input.owned.firewall_rules@[k],
                reconcile::wants(input).firewall_rules,
                *input.machine,
                input.firewall,
            ),
        ),
{
    let a = rules::wanted_steps(
        reconcile::wants(input).firewall_rules,
        input.owned.firewall_rules@,
        *input.machine,
        input.firewall,
        input.repair,
    );
    let b = rules::owned_steps(
        input.owned.firewall_rules@,
        reconcile::wants(input).firewall_rules,
        *input.machine,
        input.firewall,
    );
    lemma_two_lists(input, a, b, i, k, reconcile::sections(input)->Ok_0.firewall);
}

/// Every wanted environment variable and every owned one has its part in the
/// plan; only a repair writes over what somebody changed.
pub proof fn lemma_every_variable_is_planned(input: Reconcile, i: int, k: int)
    requires
        reconcile::sections(input) is Ok,
    ensures
        ({
            let wanted = reconcile::wants(input).environment_variables;
            let owned = input.owned.environment_variables@;
            let records = values::variable_records(owned);
            &&& 0 <= i < wanted.len() ==> carries(
                reconcile::operations(input, reconcile::sections(input)->Ok_0),
                reconcile::findings(input, reconcile::sections(input)->Ok_0),
                values::wanted_step(
                    values::of_environment(),
                    registry::DesiredValueView {
                        key: wanted[i].key,
                        name: wanted[i].name,
                        data: wanted[i].data,
                    },
                    records,
                    *input.machine,
                    input.repair,
                ),
            )
            &&& 0 <= k < owned.len() ==> carries(
                reconcile::operations(input, reconcile::sections(input)->Ok_0),
                reconcile::findings(input, reconcile::sections(input)->Ok_0),
                values::owned_step(
                    values::of_environment(),
                    records[k],
                    values::variable_values(wanted),
                    *input.machine,
                ),
            )
            &&& 0 <= k < owned.len() ==> records[k].key == owned[k].hive_key@ && records[k].name
                == owned[k].name@
        }),
{
    let wanted = reconcile::wants(input).environment_variables;
    let records = values::variable_records(input.owned.environment_variables@);
    let w = values::variable_values(wanted);
    let a = values::wanted_steps(
        values::of_environment(),
        w,
        records,
        *input.machine,
        input.repair,
    );
    let b = values::owned_steps(values::of_environment(), w, records, *input.machine);
    lemma_two_lists(input, a, b, i, k, reconcile::sections(input)->Ok_0.environment);
}

/// Every wanted registry value and every owned one has its part in the plan,
/// those of the registration among their own; of the registration the wanted
/// data always wins, and of the product's only a repair writes over what
/// somebody changed.
pub proof fn lemma_every_registry_value_is_planned(input: Reconcile, i: int, k: int)
    requires
        reconcile::sections(input) is Ok,
    ensures
        ({
            let w = reconcile::wants(input);
            let owned = input.owned.registry_values@;
            let key = reconcile::registration_key(input);
            let product = values::value_records(owned.filter(reconcile::of_product(key)));
            let own = values::value_records(owned.filter(reconcile::of_registration(key)));
            let ops = reconcile::operations(input, reconcile::sections(input)->Ok_0);
            let found = reconcile::findings(input, reconcile::sections(input)->Ok_0);
            &&& 0 <= i < w.registry_values.len() ==> carries(
                ops,
                found,
                values::wanted_step(
                    values::of_registry(),
                    w.registry_values[i],
                    product,
                    *input.machine,
                    input.repair,
                ),
            )
            &&& 0 <= i < w.registration_values.len() ==> carries(
                ops,
                found,
                values::wanted_step(
                    values::of_registry(),
                    w.registration_values[i],
                    own,
                    *input.machine,
                    true,
                ),
            )
            &&& 0 <= k < owned.len() ==> carries(
                ops,
                found,
                values::owned_step(
                    values::of_registry(),
                    values::value_record(owned[k]),
                    if registry::registers(owned[k].key@, key) {
                        w.registration_values
                    } else {
                        w.registry_values
                    },
                    *input.machine,
                ),
            )
        }),
{
    let w = reconcile::wants(input);
    let owned = input.owned.registry_values@;
    let key = reconcile::registration_key(input);
    let ours = owned.filter(reconcile::of_product(key));
    let theirs = owned.filter(reconcile::of_registration(key));
    let product = values::value_records(ours);
    let own = values::value_records(theirs);
    let kinds = values::of_registry();
    let m = *input.machine;
    let mut p: int = 0;
    let mut q: int = 0;
    if 0 <= k < owned.len() {
        if registry::registers(owned[k].key@, key) {
            lists::lemma_filter_holds(owned, reconcile::of_registration(key), k);
            q = choose|q: int| 0 <= q < theirs.len() && theirs[q] == owned[k];
        } else {
            lists::lemma_filter_holds(owned, reconcile::of_product(key), k);
            p = choose|p: int| 0 <= p < ours.len() && ours[p] == owned[k];
        }
    }
    lemma_two_lists(
        input,
        values::wanted_steps(kinds, w.registry_values, product, m, input.repair),
        values::owned_steps(kinds, w.registry_values, product, m),
        i,
        p,
        reconcile::sections(input)->Ok_0.values,
    );
    lemma_two_lists(
        input,
        values::wanted_steps(kinds, w.registration_values, own, m, true),
        values::owned_steps(kinds, w.registration_values, own, m),
        i,
        q,
        reconcile::sections(input)->Ok_0.registration_values,
    );
}

/// Every directory that goes is removed by the plan.
pub proof fn lemma_a_directory_that_goes_is_removed(input: Reconcile, i: int)
    requires
        reconcile::sections(input) is Ok,
        0 <= i < gone_directories(input).len(),
    ensures
        ({
            let ops = reconcile::operations(input, reconcile::sections(input)->Ok_0);
            let directories = files::gone(
                input.owned.directories@,
                reconcile::wants(input).directories,
                files::preserved(
                    input.owned.files@,
                    reconcile::wants(input).files,
                    input.install_root@,
                    *input.machine,
                ),
            );
            &&& gone_directories(input).len() == directories.len()
            &&& exists|j: int|
                0 <= j < ops.len() && (#[trigger] ops[j]).kind == OpKind::RemoveDirectory
                    && ops[j].target == directories[i]
        }),
{
    let ops = reconcile::operations(input, reconcile::sections(input)->Ok_0);
    let op = gone_directories(input)[i];
    assert(gone_directories(input).contains(op));
    lemma_removals_are_planned(input, op);
    let j = choose|j: int| 0 <= j < ops.len() && ops[j] == op;
    assert(ops[j].kind == OpKind::RemoveDirectory);
}

/// Every registry key that goes is removed by the plan.
pub proof fn lemma_a_key_that_goes_is_removed(input: Reconcile, i: int)
    requires
        reconcile::sections(input) is Ok,
        0 <= i < reconcile::keys_gone(input, reconcile::sections(input)->Ok_0).len(),
    ensures
        ({
            let s = reconcile::sections(input)->Ok_0;
            let ops = reconcile::operations(input, s);
            let gone = keys::gone(input.owned.registry_keys@, s.registration_keys.handled);
            exists|j: int|
                0 <= j < ops.len() && (#[trigger] ops[j]).kind == OpKind::RemoveRegistryKey
                    && ops[j].target == gone[i]
        }),
{
    let s = reconcile::sections(input)->Ok_0;
    let ops = reconcile::operations(input, s);
    let op = gone_keys(input, s)[i];
    assert(gone_keys(input, s).contains(op));
    lemma_removals_are_planned(input, op);
    let j = choose|j: int| 0 <= j < ops.len() && ops[j] == op;
    assert(ops[j].kind == OpKind::RemoveRegistryKey);
}

proof fn lemma_ends_of_lists(
    before: Seq<OpView>,
    forward: Seq<OpView>,
    removals: Seq<OpView>,
    kept: Seq<OpView>,
    entries: Seq<OpView>,
    after: Seq<OpView>,
)
    ensures
        ({
            let ops = before + forward + removals + kept + entries + after;
            &&& ops.len() >= before.len() + after.len()
            &&& forall|i: int| 0 <= i < before.len() ==> #[trigger] ops[i] == before[i]
            &&& forall|i: int|
                0 <= i < after.len() ==> ops[ops.len() - after.len() + i] == #[trigger] after[i]
        }),
{
}

/// The actions that come before everything are the plan's first operations and
/// those that come after everything its last, each with its name and program.
pub proof fn lemma_actions_stand_at_the_ends(input: Reconcile, i: int)
    requires
        reconcile::sections(input) is Ok,
    ensures
        ({
            let ops = reconcile::operations(input, reconcile::sections(input)->Ok_0);
            let a = input.actions@;
            &&& 0 <= i < a.before.len() ==> ops[i].kind == OpKind::RunAction && ops[i].target
                == a.before[i].name && ops[i].value_data == Some(a.before[i].definition())
            &&& 0 <= i < a.after.len() ==> {
                let op = ops[ops.len() - a.after.len() + i];
                op.kind == OpKind::RunAction && op.target == a.after[i].name && op.value_data
                    == Some(a.after[i].definition())
            }
        }),
{
    let s = reconcile::sections(input)->Ok_0;
    let a = input.actions@;
    lemma_ends_of_lists(
        reconcile::runs(a.before),
        reconcile::forward(s),
        reconcile::removals(input, s),
        reconcile::stores(a.store),
        reconcile::stores_quiescence(a.store_quiescence),
        reconcile::runs(a.after),
    );
    if 0 <= i < a.after.len() {
        assert(reconcile::runs(a.after)[i].target == a.after[i].name);
    }
}

/// Every action and every quiescence entry that the uninstall will need is
/// stored by the plan, with its name and program.
pub proof fn lemma_what_is_needed_later_is_stored(input: Reconcile, i: int)
    requires
        reconcile::sections(input) is Ok,
    ensures
        ({
            let ops = reconcile::operations(input, reconcile::sections(input)->Ok_0);
            let a = input.actions@;
            &&& 0 <= i < a.store.len() ==> exists|j: int|
                0 <= j < ops.len() && (#[trigger] ops[j]).kind == OpKind::StoreAction
                    && ops[j].target == a.store[i].name && ops[j].value_data == Some(
                    a.store[i].definition(),
                )
            &&& 0 <= i < a.store_quiescence.len() ==> exists|j: int|
                0 <= j < ops.len() && (#[trigger] ops[j]).kind == OpKind::StoreAction
                    && ops[j].target == a.store_quiescence[i].name && ops[j].value_data == Some(
                    a.store_quiescence[i].definition(),
                )
        }),
{
    let s = reconcile::sections(input)->Ok_0;
    let ops = reconcile::operations(input, s);
    let a = input.actions@;
    if 0 <= i < a.store.len() {
        let op = reconcile::stores(a.store)[i];
        assert(reconcile::stores(a.store).contains(op));
        lemma_lists_are_planned(input, op);
        let j = choose|j: int| 0 <= j < ops.len() && ops[j] == op;
        assert(ops[j].target == a.store[i].name);
    }
    if 0 <= i < a.store_quiescence.len() {
        let op = reconcile::stores_quiescence(a.store_quiescence)[i];
        assert(reconcile::stores_quiescence(a.store_quiescence).contains(op));
        lemma_lists_are_planned(input, op);
        let j = choose|j: int| 0 <= j < ops.len() && ops[j] == op;
        assert(ops[j].target == a.store_quiescence[i].name);
    }
}

/// The place of an operation among those of other kinds: a directory is there
/// before its files, everything is written before the shortcuts that lead to
/// it, and removals go the other way. Registry keys and values have no place
/// of their own here: they stand where their product or registration does.
pub open spec fn place(k: OpKind) -> int {
    match k {
        OpKind::CreateDirectory | OpKind::KeepDirectory => 1,
        OpKind::InstallFile | OpKind::KeepFile => 2,
        OpKind::AddPathEntry | OpKind::KeepPathEntry => 3,
        OpKind::SetEnvironmentVariable | OpKind::KeepEnvironmentVariable => 4,
        OpKind::CreateShortcut | OpKind::KeepShortcut => 5,
        OpKind::CreateFirewallRule | OpKind::KeepFirewallRule => 6,
        OpKind::RemoveFirewallRule => 7,
        OpKind::RemoveShortcut => 8,
        OpKind::RestoreEnvironmentVariable => 9,
        OpKind::RemovePathEntry => 10,
        OpKind::RemoveFile => 11,
        OpKind::RemoveDirectory => 12,
        OpKind::StoreAction => 13,
        _ => 0,
    }
}

/// Holds of the kinds of a place, and of those without one.
pub open spec fn placed(n: int) -> spec_fn(OpKind) -> bool {
    |k: OpKind| place(k) == n || place(k) == 0
}

/// Whether operations stand in order, between two places.
#[verifier::opaque]
pub open spec fn ranked(ops: Seq<OpView>, low: int, high: int) -> bool {
    &&& forall|i: int|
        0 <= i < ops.len() ==> place((#[trigger] ops[i]).kind) == 0 || low <= place(ops[i].kind)
            <= high
    &&& forall|i: int, j: int|
        0 <= i < j < ops.len() && place((#[trigger] ops[i]).kind) > 0 && place(
            (#[trigger] ops[j]).kind,
        ) > 0 ==> place(ops[i].kind) <= place(ops[j].kind)
}

proof fn lemma_ranked_alone(ops: Seq<OpView>, n: int)
    requires
        part::all_fit(ops, placed(n)),
    ensures
        ranked(ops, n, n),
{
    reveal(ranked);
    assert forall|i: int| 0 <= i < ops.len() implies place((#[trigger] ops[i]).kind) == 0 || n
        <= place(ops[i].kind) <= n by {
        assert(placed(n)(ops[i].kind));
    }
}

proof fn lemma_ranked_concat(
    a: Seq<OpView>,
    low: int,
    middle: int,
    b: Seq<OpView>,
    from: int,
    high: int,
)
    requires
        ranked(a, low, middle),
        ranked(b, from, high),
        low <= middle <= from <= high,
    ensures
        ranked(a + b, low, high),
{
    reveal(ranked);
    let whole = a + b;
    assert forall|i: int| 0 <= i < whole.len() implies place((#[trigger] whole[i]).kind) == 0 || low
        <= place(whole[i].kind) <= high by {
        if i < a.len() {
            assert(whole[i] == a[i]);
        } else {
            assert(whole[i] == b[i - a.len()]);
        }
    }
    assert forall|i: int, j: int|
        0 <= i < j < whole.len() && place((#[trigger] whole[i]).kind) > 0 && place(
            (#[trigger] whole[j]).kind,
        ) > 0 implies place(whole[i].kind) <= place(whole[j].kind) by {
        if j < a.len() {
            assert(whole[i] == a[i] && whole[j] == a[j]);
        } else if i >= a.len() {
            assert(whole[i] == b[i - a.len()] && whole[j] == b[j - a.len()]);
        } else {
            assert(whole[i] == a[i] && whole[j] == b[j - a.len()]);
        }
    }
}

proof fn lemma_both_placed(a: Seq<Step>, b: Seq<Step>, f: int, r: int)
    requires
        part::both(part::gather(a), part::gather(b)) is Ok,
        forall|i: int|
            0 <= i < a.len() && (#[trigger] a[i]) is Ok ==> part::all_fit(
                a[i]->Ok_0.forward,
                placed(f),
            ) && part::all_fit(a[i]->Ok_0.removals, placed(r)),
        forall|i: int|
            0 <= i < b.len() && (#[trigger] b[i]) is Ok ==> part::all_fit(
                b[i]->Ok_0.forward,
                placed(f),
            ) && part::all_fit(b[i]->Ok_0.removals, placed(r)),
    ensures
        ranked(part::both(part::gather(a), part::gather(b))->Ok_0.forward, f, f),
        ranked(part::both(part::gather(a), part::gather(b))->Ok_0.removals, r, r),
{
    part::lemma_gather_all(a, placed(f), placed(r));
    part::lemma_gather_all(b, placed(f), placed(r));
    let x = part::gather(a)->Ok_0;
    let y = part::gather(b)->Ok_0;
    part::lemma_fit_concat(x.forward, y.forward, placed(f));
    part::lemma_fit_concat(x.removals, y.removals, placed(r));
    lemma_ranked_alone(x.forward + y.forward, f);
    lemma_ranked_alone(x.removals + y.removals, r);
}

/// Steps of values, each in its place.
proof fn lemma_value_steps_placed(
    kinds: values::KindsView,
    wanted: Seq<registry::DesiredValueView>,
    owned: Seq<values::RecordView>,
    machine: Machine,
    repair: bool,
    f: int,
    r: int,
)
    requires
        place(kinds.set) == f || place(kinds.set) == 0,
        place(kinds.keep) == f || place(kinds.keep) == 0,
        place(kinds.remove) == r || place(kinds.remove) == 0,
        part::both(
            part::gather(values::wanted_steps(kinds, wanted, owned, machine, repair)),
            part::gather(values::owned_steps(kinds, wanted, owned, machine)),
        ) is Ok,
    ensures
        ({
            let p = part::both(
                part::gather(values::wanted_steps(kinds, wanted, owned, machine, repair)),
                part::gather(values::owned_steps(kinds, wanted, owned, machine)),
            )->Ok_0;
            ranked(p.forward, f, f) && ranked(p.removals, r, r)
        }),
{
    lemma_both_placed(
        values::wanted_steps(kinds, wanted, owned, machine, repair),
        values::owned_steps(kinds, wanted, owned, machine),
        f,
        r,
    );
}

proof fn lemma_with_keys_placed(
    done: keys::KeysView,
    names: Seq<Seq<char>>,
    spelled: Seq<crate::machine::KeyView>,
    machine: Machine,
    owned: Seq<crate::state::installation::OwnedRegistryKey>,
)
    requires
        part::all_fit(done.operations, placed(0)),
    ensures
        part::all_fit(
            keys::with_keys(done, names, spelled, machine, owned).operations,
            placed(0),
        ),
    decreases names.len(),
{
    if names.len() > 0 {
        lemma_with_keys_placed(done, names.drop_last(), spelled, machine, owned);
    }
}

proof fn lemma_over_roots_placed(
    done: keys::KeysView,
    roots: Seq<crate::machine::KeyView>,
    needed: Seq<crate::machine::KeyView>,
    machine: Machine,
    owned: Seq<crate::state::installation::OwnedRegistryKey>,
)
    requires
        part::all_fit(done.operations, placed(0)),
    ensures
        part::all_fit(keys::over_roots(done, roots, needed, machine, owned).operations, placed(0)),
    decreases roots.len(),
{
    if roots.len() > 0 {
        lemma_over_roots_placed(done, roots.drop_last(), needed, machine, owned);
        let before = keys::over_roots(done, roots.drop_last(), needed, machine, owned);
        let group = needed.filter(keys::rooted_at(roots.last()));
        lemma_with_keys_placed(
            before,
            keys::implied(group, roots.last()),
            keys::chains(group, roots.last()),
            machine,
            owned,
        );
    }
}

proof fn lemma_keys_placed(input: Reconcile)
    ensures
        ranked(reconcile::keys_part(input).operations, 0, 0),
        ranked(reconcile::registration_keys_part(input).operations, 0, 0),
{
    let needed = keys::distinct_keys(
        reconcile::keys_of(reconcile::wants(input).registry_values),
    );
    let empty = keys::KeysView { operations: Seq::empty(), handled: Seq::empty() };
    lemma_over_roots_placed(
        empty,
        keys::roots_of(needed),
        needed,
        *input.machine,
        input.owned.registry_keys@,
    );
    lemma_ranked_alone(reconcile::keys_part(input).operations, 0);
    match input.desired {
        Some(d) => {
            let own = seq![d@.registration_key];
            let stop = crate::scope::uninstall_root(input.scope);
            lemma_with_keys_placed(
                keys::KeysView {
                    operations: Seq::empty(),
                    handled: reconcile::keys_part(input).handled,
                },
                keys::implied(own, stop),
                keys::chains(own, stop),
                *input.machine,
                input.owned.registry_keys@,
            );
        },
        None => {},
    }
    lemma_ranked_alone(reconcile::registration_keys_part(input).operations, 0);
}

proof fn lemma_directories_placed(input: Reconcile)
    requires
        reconcile::sections(input) is Ok,
    ensures
        ranked(reconcile::sections(input)->Ok_0.directories.forward, 1, 1),
{
    let d = files::directory_steps(
        reconcile::wants(input).directories,
        input.owned.directories@,
        input.install_root@,
        input.inspect_files,
        *input.machine,
    );
    part::lemma_gather_all(d, placed(1), placed(0));
    lemma_ranked_alone(part::gather(d)->Ok_0.forward, 1);
}

proof fn lemma_file_steps_placed(
    wanted: Seq<files::DesiredFileView>,
    owned: Seq<crate::state::installation::OwnedFile>,
    root: Seq<char>,
    inspect: bool,
    repair: bool,
    payload: Option<files::Payload>,
    machine: Machine,
)
    requires
        part::gather(
            files::file_steps(wanted, owned, root, inspect, repair, payload, machine),
        ) is Ok,
    ensures
        ranked(
            part::gather(
                files::file_steps(wanted, owned, root, inspect, repair, payload, machine),
            )->Ok_0.forward,
            2,
            2,
        ),
{
    let f = files::file_steps(wanted, owned, root, inspect, repair, payload, machine);
    part::lemma_gather_all(f, placed(2), placed(0));
    lemma_ranked_alone(part::gather(f)->Ok_0.forward, 2);
}

proof fn lemma_files_placed(input: Reconcile)
    requires
        reconcile::sections(input) is Ok,
    ensures
        ranked(reconcile::sections(input)->Ok_0.files.forward, 2, 2),
{
    lemma_file_steps_placed(
        reconcile::wants(input).files,
        input.owned.files@,
        input.install_root@,
        input.inspect_files,
        input.repair,
        files::held(input.payload),
        *input.machine,
    );
}

proof fn lemma_file_removal_steps_placed(
    owned: Seq<crate::state::installation::OwnedFile>,
    wanted: Seq<files::DesiredFileView>,
    root: Seq<char>,
    machine: Machine,
)
    requires
        part::gather(files::file_removals(owned, wanted, root, machine)) is Ok,
    ensures
        ranked(
            part::gather(files::file_removals(owned, wanted, root, machine))->Ok_0.removals,
            11,
            11,
        ),
{
    let g = files::file_removals(owned, wanted, root, machine);
    part::lemma_gather_all(g, placed(0), placed(11));
    lemma_ranked_alone(part::gather(g)->Ok_0.removals, 11);
}

proof fn lemma_file_removals_placed(input: Reconcile)
    requires
        reconcile::sections(input) is Ok,
    ensures
        ranked(reconcile::sections(input)->Ok_0.file_removals.removals, 11, 11),
{
    lemma_file_removal_steps_placed(
        input.owned.files@,
        reconcile::wants(input).files,
        input.install_root@,
        *input.machine,
    );
}

proof fn lemma_path_steps_placed(
    wanted: Seq<Seq<char>>,
    owned: Seq<crate::state::installation::OwnedPathEntry>,
    key: crate::machine::KeyView,
    current: Seq<char>,
    machine: Machine,
)
    requires
        part::both(
            part::gather(entries::wanted_steps(wanted, owned, key, current, machine)),
            part::gather(entries::owned_steps(owned, wanted, machine)),
        ) is Ok,
    ensures
        ({
            let p = part::both(
                part::gather(entries::wanted_steps(wanted, owned, key, current, machine)),
                part::gather(entries::owned_steps(owned, wanted, machine)),
            )->Ok_0;
            ranked(p.forward, 3, 3) && ranked(p.removals, 10, 10)
        }),
{
    lemma_both_placed(
        entries::wanted_steps(wanted, owned, key, current, machine),
        entries::owned_steps(owned, wanted, machine),
        3,
        10,
    );
}

proof fn lemma_path_placed(input: Reconcile)
    requires
        reconcile::sections(input) is Ok,
    ensures
        ranked(reconcile::sections(input)->Ok_0.path.forward, 3, 3),
        ranked(reconcile::sections(input)->Ok_0.path.removals, 10, 10),
{
    let key = crate::scope::environment_key(input.scope);
    lemma_path_steps_placed(
        reconcile::wants(input).path_entries,
        input.owned.path_entries@,
        key,
        entries::path_at(key, *input.machine)->Ok_0,
        *input.machine,
    );
}

proof fn lemma_shortcuts_steps_placed(
    wanted: Seq<crate::resource::shortcut::DesiredShortcutView>,
    owned: Seq<crate::state::installation::OwnedShortcut>,
    root: Seq<char>,
    folders: Seq<String>,
    machine: Machine,
)
    requires
        part::both(
            part::gather(shortcuts::wanted_steps(wanted, machine)),
            part::gather(shortcuts::owned_steps(owned, wanted, root, folders, machine)),
        ) is Ok,
    ensures
        ({
            let p = part::both(
                part::gather(shortcuts::wanted_steps(wanted, machine)),
                part::gather(shortcuts::owned_steps(owned, wanted, root, folders, machine)),
            )->Ok_0;
            ranked(p.forward, 5, 5) && ranked(p.removals, 8, 8)
        }),
{
    lemma_both_placed(
        shortcuts::wanted_steps(wanted, machine),
        shortcuts::owned_steps(owned, wanted, root, folders, machine),
        5,
        8,
    );
}

proof fn lemma_shortcuts_placed(input: Reconcile)
    requires
        reconcile::sections(input) is Ok,
    ensures
        ranked(reconcile::sections(input)->Ok_0.shortcuts.forward, 5, 5),
        ranked(reconcile::sections(input)->Ok_0.shortcuts.removals, 8, 8),
{
    lemma_shortcuts_steps_placed(
        reconcile::wants(input).shortcuts,
        input.owned.shortcuts@,
        input.install_root@,
        input.shortcut_folders@,
        *input.machine,
    );
}

proof fn lemma_firewall_steps_placed(
    wanted: Seq<crate::machine::RuleView>,
    owned: Seq<crate::state::installation::OwnedFirewallRule>,
    machine: Machine,
    may_write: bool,
    repair: bool,
)
    requires
        part::both(
            part::gather(rules::wanted_steps(wanted, owned, machine, may_write, repair)),
            part::gather(rules::owned_steps(owned, wanted, machine, may_write)),
        ) is Ok,
    ensures
        ({
            let p = part::both(
                part::gather(rules::wanted_steps(wanted, owned, machine, may_write, repair)),
                part::gather(rules::owned_steps(owned, wanted, machine, may_write)),
            )->Ok_0;
            ranked(p.forward, 6, 6) && ranked(p.removals, 7, 7)
        }),
{
    lemma_both_placed(
        rules::wanted_steps(wanted, owned, machine, may_write, repair),
        rules::owned_steps(owned, wanted, machine, may_write),
        6,
        7,
    );
}

proof fn lemma_firewall_placed(input: Reconcile)
    requires
        reconcile::sections(input) is Ok,
    ensures
        ranked(reconcile::sections(input)->Ok_0.firewall.forward, 6, 6),
        ranked(reconcile::sections(input)->Ok_0.firewall.removals, 7, 7),
{
    lemma_firewall_steps_placed(
        reconcile::wants(input).firewall_rules,
        input.owned.firewall_rules@,
        *input.machine,
        input.firewall,
        input.repair,
    );
}

proof fn lemma_values_placed(input: Reconcile)
    requires
        reconcile::sections(input) is Ok,
    ensures
        ranked(reconcile::sections(input)->Ok_0.values.forward, 0, 0),
        ranked(reconcile::sections(input)->Ok_0.values.removals, 0, 0),
{
    let w = reconcile::wants(input);
    let key = reconcile::registration_key(input);
    let owned = input.owned.registry_values@;
    lemma_value_steps_placed(
        values::of_registry(),
        w.registry_values,
        values::value_records(owned.filter(reconcile::of_product(key))),
        *input.machine,
        input.repair,
        0,
        0,
    );
}

proof fn lemma_registration_placed(input: Reconcile)
    requires
        reconcile::sections(input) is Ok,
    ensures
        ranked(reconcile::sections(input)->Ok_0.registration_values.forward, 0, 0),
        ranked(reconcile::sections(input)->Ok_0.registration_values.removals, 0, 0),
{
    let w = reconcile::wants(input);
    let key = reconcile::registration_key(input);
    let owned = input.owned.registry_values@;
    lemma_value_steps_placed(
        values::of_registry(),
        w.registration_values,
        values::value_records(owned.filter(reconcile::of_registration(key))),
        *input.machine,
        true,
        0,
        0,
    );
}

proof fn lemma_environment_placed(input: Reconcile)
    requires
        reconcile::sections(input) is Ok,
    ensures
        ranked(reconcile::sections(input)->Ok_0.environment.forward, 4, 4),
        ranked(reconcile::sections(input)->Ok_0.environment.removals, 9, 9),
{
    lemma_value_steps_placed(
        values::of_environment(),
        values::variable_values(reconcile::wants(input).environment_variables),
        values::variable_records(input.owned.environment_variables@),
        *input.machine,
        input.repair,
        4,
        9,
    );
}

/// Operations without a place may stand at any.
proof fn lemma_ranked_anywhere(ops: Seq<OpView>, n: int)
    requires
        ranked(ops, 0, 0),
    ensures
        ranked(ops, n, n),
{
    reveal(ranked);
    assert forall|i: int| 0 <= i < ops.len() implies place((#[trigger] ops[i]).kind) == 0 by {}
}

proof fn lemma_forward_in_order(input: Reconcile)
    requires
        reconcile::sections(input) is Ok,
    ensures
        ranked(reconcile::forward(reconcile::sections(input)->Ok_0), 1, 6),
{
    let s = reconcile::sections(input)->Ok_0;
    lemma_directories_placed(input);
    lemma_files_placed(input);
    lemma_path_placed(input);
    lemma_shortcuts_placed(input);
    lemma_firewall_placed(input);
    lemma_values_placed(input);
    lemma_registration_placed(input);
    lemma_environment_placed(input);
    lemma_keys_placed(input);
    assert(s.keys == reconcile::keys_part(input));
    assert(s.registration_keys == reconcile::registration_keys_part(input));
    lemma_ranked_anywhere(s.keys.operations, 2);
    lemma_ranked_anywhere(s.values.forward, 2);
    lemma_ranked_anywhere(s.registration_keys.operations, 6);
    lemma_ranked_anywhere(s.registration_values.forward, 6);
    lemma_forward_of_sections(s);
}

proof fn lemma_forward_of_sections(s: SectionsView)
    requires
        ranked(s.directories.forward, 1, 1),
        ranked(s.files.forward, 2, 2),
        ranked(s.keys.operations, 2, 2),
        ranked(s.values.forward, 2, 2),
        ranked(s.path.forward, 3, 3),
        ranked(s.environment.forward, 4, 4),
        ranked(s.shortcuts.forward, 5, 5),
        ranked(s.firewall.forward, 6, 6),
        ranked(s.registration_keys.operations, 6, 6),
        ranked(s.registration_values.forward, 6, 6),
    ensures
        ranked(reconcile::forward(s), 1, 6),
{
    let f1 = s.directories.forward + s.files.forward;
    lemma_ranked_concat(s.directories.forward, 1, 1, s.files.forward, 2, 2);
    let f2 = f1 + s.keys.operations;
    lemma_ranked_concat(f1, 1, 2, s.keys.operations, 2, 2);
    let f3 = f2 + s.values.forward;
    lemma_ranked_concat(f2, 1, 2, s.values.forward, 2, 2);
    let f4 = f3 + s.path.forward;
    lemma_ranked_concat(f3, 1, 2, s.path.forward, 3, 3);
    let f5 = f4 + s.environment.forward;
    lemma_ranked_concat(f4, 1, 3, s.environment.forward, 4, 4);
    let f6 = f5 + s.shortcuts.forward;
    lemma_ranked_concat(f5, 1, 4, s.shortcuts.forward, 5, 5);
    let f7 = f6 + s.firewall.forward;
    lemma_ranked_concat(f6, 1, 5, s.firewall.forward, 6, 6);
    let f8 = f7 + s.registration_keys.operations;
    lemma_ranked_concat(f7, 1, 6, s.registration_keys.operations, 6, 6);
    lemma_ranked_concat(f8, 1, 6, s.registration_values.forward, 6, 6);
}

proof fn lemma_removals_of_lists(
    registration: Seq<OpView>,
    own: Seq<OpView>,
    firewall: Seq<OpView>,
    links: Seq<OpView>,
    environment: Seq<OpView>,
    path: Seq<OpView>,
    values: Seq<OpView>,
    products: Seq<OpView>,
    removed: Seq<OpView>,
    directories: Seq<OpView>,
)
    requires
        ranked(registration, 7, 7),
        ranked(own, 7, 7),
        ranked(firewall, 7, 7),
        ranked(links, 8, 8),
        ranked(environment, 9, 9),
        ranked(path, 10, 10),
        ranked(values, 10, 10),
        ranked(products, 10, 10),
        ranked(removed, 11, 11),
        ranked(directories, 12, 12),
    ensures
        ranked(
            registration + own + firewall + links + environment + path + values + products + removed
                + directories,
            7,
            12,
        ),
{
    let r1 = registration + own;
    lemma_ranked_concat(registration, 7, 7, own, 7, 7);
    let r2 = r1 + firewall;
    lemma_ranked_concat(r1, 7, 7, firewall, 7, 7);
    let r3 = r2 + links;
    lemma_ranked_concat(r2, 7, 7, links, 8, 8);
    let r4 = r3 + environment;
    lemma_ranked_concat(r3, 7, 8, environment, 9, 9);
    let r5 = r4 + path;
    lemma_ranked_concat(r4, 7, 9, path, 10, 10);
    let r6 = r5 + values;
    lemma_ranked_concat(r5, 7, 10, values, 10, 10);
    let r7 = r6 + products;
    lemma_ranked_concat(r6, 7, 10, products, 10, 10);
    let r8 = r7 + removed;
    lemma_ranked_concat(r7, 7, 10, removed, 11, 11);
    lemma_ranked_concat(r8, 7, 11, directories, 12, 12);
}

proof fn lemma_key_removals_placed(names: Seq<Seq<char>>, n: int)
    ensures
        ranked(reconcile::key_removals(names), n, n),
{
    assert(part::all_fit(reconcile::key_removals(names), placed(n)));
    lemma_ranked_alone(reconcile::key_removals(names), n);
}

proof fn lemma_removals_in_order(input: Reconcile)
    requires
        reconcile::sections(input) is Ok,
    ensures
        ranked(reconcile::removals(input, reconcile::sections(input)->Ok_0), 7, 12),
{
    let s = reconcile::sections(input)->Ok_0;
    lemma_file_removals_placed(input);
    lemma_path_placed(input);
    lemma_shortcuts_placed(input);
    lemma_firewall_placed(input);
    lemma_values_placed(input);
    lemma_registration_placed(input);
    lemma_environment_placed(input);
    let key = reconcile::registration_key(input);
    let gone = reconcile::keys_gone(input, s);
    lemma_key_removals_placed(gone.filter(reconcile::registers_it(key)), 7);
    lemma_key_removals_placed(gone.filter(reconcile::is_the_products(key)), 10);
    assert(part::all_fit(gone_directories(input), placed(12)));
    lemma_ranked_alone(gone_directories(input), 12);
    lemma_ranked_anywhere(s.registration_values.removals, 7);
    lemma_ranked_anywhere(s.values.removals, 10);
    lemma_removals_of_lists(
        s.registration_values.removals,
        reconcile::key_removals(gone.filter(reconcile::registers_it(key))),
        s.firewall.removals,
        s.shortcuts.removals,
        s.environment.removals,
        s.path.removals,
        s.values.removals,
        reconcile::key_removals(gone.filter(reconcile::is_the_products(key))),
        s.file_removals.removals,
        gone_directories(input),
    );
}

proof fn lemma_actions_placed(actions: Seq<crate::action::definition::ActionView>, n: int)
    ensures
        ranked(reconcile::runs(actions), n, n),
{
    assert(part::all_fit(reconcile::runs(actions), placed(n)));
    lemma_ranked_alone(reconcile::runs(actions), n);
}

proof fn lemma_stored_placed(
    actions: Seq<crate::action::definition::ActionView>,
    entries: Seq<crate::action::definition::QuiescenceView>,
)
    ensures
        ranked(reconcile::stores(actions), 13, 13),
        ranked(reconcile::stores_quiescence(entries), 13, 13),
{
    assert(part::all_fit(reconcile::stores(actions), placed(13)));
    assert(part::all_fit(reconcile::stores_quiescence(entries), placed(13)));
    lemma_ranked_alone(reconcile::stores(actions), 13);
    lemma_ranked_alone(reconcile::stores_quiescence(entries), 13);
}

proof fn lemma_whole_of_lists(
    before: Seq<OpView>,
    forward: Seq<OpView>,
    removals: Seq<OpView>,
    kept: Seq<OpView>,
    entries: Seq<OpView>,
    after: Seq<OpView>,
)
    requires
        ranked(before, 0, 0),
        ranked(forward, 1, 6),
        ranked(removals, 7, 12),
        ranked(kept, 13, 13),
        ranked(entries, 13, 13),
        ranked(after, 13, 13),
    ensures
        ranked(before + forward + removals + kept + entries + after, 0, 13),
{
    let o1 = before + forward;
    lemma_ranked_concat(before, 0, 0, forward, 1, 6);
    let o2 = o1 + removals;
    lemma_ranked_concat(o1, 0, 6, removals, 7, 12);
    let o3 = o2 + kept;
    lemma_ranked_concat(o2, 0, 12, kept, 13, 13);
    let o4 = o3 + entries;
    lemma_ranked_concat(o3, 0, 13, entries, 13, 13);
    lemma_ranked_concat(o4, 0, 13, after, 13, 13);
}

/// A plan puts its operations in the order the resources depend on each other:
/// directories, files, PATH, environment variables, shortcuts and firewall
/// rules, then the removals the other way round, and last what is stored for
/// the uninstall.
pub proof fn lemma_a_plan_is_in_order(input: Reconcile)
    requires
        reconcile::sections(input) is Ok,
    ensures
        ranked(reconcile::operations(input, reconcile::sections(input)->Ok_0), 0, 13),
{
    let s = reconcile::sections(input)->Ok_0;
    lemma_forward_in_order(input);
    lemma_removals_in_order(input);
    let actions = input.actions@;
    lemma_actions_placed(actions.before, 0);
    lemma_actions_placed(actions.after, 13);
    lemma_stored_placed(actions.store, actions.store_quiescence);
    lemma_whole_of_lists(
        reconcile::runs(actions.before),
        reconcile::forward(s),
        reconcile::removals(input, s),
        reconcile::stores(actions.store),
        reconcile::stores_quiescence(actions.store_quiescence),
        reconcile::runs(actions.after),
    );
}

/// The numbers of a plan count its operations and its files: what is kept and
/// what is written over, added or repaired make up every wanted file.
pub proof fn lemma_the_numbers_add_up(
    counts: PlanCounts,
    ops: Seq<OpView>,
    fates: Seq<FileFate>,
)
    requires
        reconcile::counted(counts, ops, fates),
    ensures
        fates.filter(|f: FileFate| f == FileFate::Kept).len() + counts.replaced + counts.added
            == fates.len(),
        counts.repaired <= counts.replaced + counts.added,
        counts.kept == ops.filter(|o: OpView| o.kind == OpKind::KeepFile).len(),
        counts.removed == ops.filter(|o: OpView| o.kind == OpKind::RemoveFile).len(),
        counts.directories_created == ops.filter(
            |o: OpView| o.kind == OpKind::CreateDirectory,
        ).len(),
        counts.directories_removed == ops.filter(
            |o: OpView| o.kind == OpKind::RemoveDirectory,
        ).len(),
        counts.actions == ops.filter(|o: OpView| o.kind == OpKind::RunAction).len(),
        counts.stored_actions == ops.filter(|o: OpView| o.kind == OpKind::StoreAction).len(),
{
    lemma_fates(fates);
    lemma_how_many(ops, OpKind::KeepFile);
    lemma_how_many(ops, OpKind::RemoveFile);
    lemma_how_many(ops, OpKind::CreateDirectory);
    lemma_how_many(ops, OpKind::RemoveDirectory);
    lemma_how_many(ops, OpKind::RunAction);
    lemma_how_many(ops, OpKind::StoreAction);
}

proof fn lemma_fates(fates: Seq<FileFate>)
    ensures
        fates.filter(|f: FileFate| f == FileFate::Kept).len() + reconcile::fated(
            fates,
            FileFate::Replaced,
            FileFate::RepairedChanged,
        ) + reconcile::fated(fates, FileFate::Added, FileFate::RepairedMissing) == fates.len(),
        reconcile::fated(fates, FileFate::RepairedMissing, FileFate::RepairedChanged)
            <= reconcile::fated(fates, FileFate::Replaced, FileFate::RepairedChanged)
            + reconcile::fated(fates, FileFate::Added, FileFate::RepairedMissing),
    decreases fates.len(),
{
    reveal(Seq::filter);
    if fates.len() > 0 {
        lemma_fates(fates.drop_last());
    }
}

proof fn lemma_how_many(ops: Seq<OpView>, kind: OpKind)
    ensures
        reconcile::how_many(ops, reconcile::is_kind(kind)) == ops.filter(
            |o: OpView| o.kind == kind,
        ).len(),
    decreases ops.len(),
{
    reveal(Seq::filter);
    if ops.len() > 0 {
        lemma_how_many(ops.drop_last(), kind);
    }
}

/// A plan that is made holds every operation and every finding of its parts,
/// with their numbers; where a part cannot be made, its error is the answer.
pub proof fn lemma_a_plan_holds_its_parts(r: Result<Plan, Error>, input: Reconcile)
    requires
        reconcile::is_plan(r, input),
    ensures
        r is Ok <==> reconcile::sections(input) is Ok,
        r matches Ok(plan) ==> {
            let s = reconcile::sections(input)->Ok_0;
            let ops = text::views(plan.operations@);
            &&& ops == reconcile::operations(input, s)
            &&& text::views(plan.findings@) == reconcile::findings(input, s)
            &&& plan.counts.kept == ops.filter(|o: OpView| o.kind == OpKind::KeepFile).len()
            &&& plan.counts.removed == ops.filter(|o: OpView| o.kind == OpKind::RemoveFile).len()
            &&& plan.counts.actions == ops.filter(|o: OpView| o.kind == OpKind::RunAction).len()
        },
        r matches Err(e) ==> reconcile::sections(input) == Err::<SectionsView, ErrorView>(e@),
{
    if r is Ok {
        let s = reconcile::sections(input)->Ok_0;
        lemma_the_numbers_add_up(r->Ok_0.counts, reconcile::operations(input, s), s.files.fates);
    }
}

/// What changes a resource other than a file or a directory is counted so.
pub proof fn lemma_what_counts_as_a_resource(kind: OpKind)
    ensures
        reconcile::changes_resource(kind) ==> !kind.keeps(),
        reconcile::changes_resource(kind) <==> !kind.keeps() && kind != OpKind::InstallFile && kind
            != OpKind::RemoveFile && kind != OpKind::CreateDirectory && kind
            != OpKind::RemoveDirectory && kind != OpKind::RunAction && kind != OpKind::StoreAction,
{
}

}
