//! What a plan does about each resource: the resource ends as the package
//! wants it, or as somebody else left it, and what is given back is what was
//! there before.

use vstd::prelude::*;

use crate::error::ErrorView;
use crate::lists;
use crate::machine;
use crate::machine::{DataView, KeyView, LinkInspection, Machine, RuleView};
use crate::plan::entries;
use crate::plan::files;
use crate::plan::files::DesiredFileView;
use crate::plan::keys;
use crate::plan::keys::KeysView;
use crate::plan::operation::OpView;
use crate::plan::part::PartView;
use crate::plan::rules;
use crate::plan::shortcuts;
use crate::plan::target;
use crate::plan::values;
use crate::plan::values::{KindsView, RecordView};
use crate::resource::path;
use crate::resource::registry::DesiredValueView;
use crate::resource::shortcut;
use crate::resource::shortcut::DesiredShortcutView;
use crate::scope;
use crate::state::installation::{
    OwnedDirectory, OwnedFile, OwnedFirewallRule, OwnedPathEntry, OwnedRegistryKey, OwnedShortcut,
};
use crate::state::journal::OpKind;
use crate::text;

verus! {

/// Whether a step does nothing but report one thing of a code.
pub open spec fn only_reports(step: PartView, code: Seq<char>) -> bool {
    &&& step.forward.len() == 0
    &&& step.removals.len() == 0
    &&& step.findings.len() == 1
    &&& step.findings[0].code == code
}

/// Whether a step does nothing at all.
pub open spec fn is_silent(step: PartView) -> bool {
    step.forward.len() == 0 && step.removals.len() == 0 && step.findings.len() == 0
}

/// Whether an operation says that a value of a name, below a key, is some data.
pub open spec fn says(op: OpView, key: KeyView, name: Seq<char>, data: DataView) -> bool {
    &&& op.target == key.text()
    &&& op.value_name == Some(name)
    &&& op.value_kind == Some(data.kind())
    &&& op.value_data == Some(data.text())
}

/// Whether an operation carries what was there before: some data, or the word
/// that nothing was.
pub open spec fn gives_back(op: OpView, restore: Option<DataView>) -> bool {
    match restore {
        Some(data) => op.restore_kind == Some(data.kind()) && op.restore_data == Some(data.text()),
        None => op.restore_kind == Some("absent"@) && op.restore_data is None,
    }
}

/// A wanted value that is not on record: one that reads as wanted is kept and
/// stays when the product goes, and any other is written.
pub proof fn lemma_a_new_value_is_written_unless_it_is_there(
    kinds: KindsView,
    want: DesiredValueView,
    records: Seq<RecordView>,
    machine: Machine,
    overwrite: bool,
)
    requires
        forall|i: int|
            0 <= i < records.len() ==> text::lower((#[trigger] records[i]).key) != text::lower(
                want.key.text(),
            ) || text::lower(records[i].name) != text::lower(want.name),
    ensures
        ({
            let step = values::wanted_step(kinds, want, records, machine, overwrite);
            let op = step->Ok_0.forward[0];
            &&& step is Ok
            &&& step->Ok_0.forward.len() == 1
            &&& step->Ok_0.removals.len() == 0
            &&& step->Ok_0.findings.len() == 0
            &&& says(op, want.key, want.name, want.data)
            &&& op.kind == if machine.value(want.key, want.name) == Some(want.data) {
                kinds.keep
            } else {
                kinds.set
            }
            &&& machine.value(want.key, want.name) == Some(want.data) ==> gives_back(
                op,
                Some(want.data),
            )
            &&& machine.value(want.key, want.name) != Some(want.data) ==> op.restore_kind is None
                && op.restore_data is None
        }),
{
    lists::lemma_first_none(records, values::is_record(want.key.text(), want.name));
}

/// A wanted value that is on record: it is written where it is gone or still
/// what the engine wrote, or where the run may overwrite; a value somebody
/// changed stays as it is and is reported. Whatever happens, what was there
/// before the installation is carried on.
pub proof fn lemma_a_changed_value_is_left_alone(
    kinds: KindsView,
    want: DesiredValueView,
    records: Seq<RecordView>,
    machine: Machine,
    overwrite: bool,
    i: int,
)
    requires
        0 <= i < records.len(),
        text::lower(records[i].key) == text::lower(want.key.text()),
        text::lower(records[i].name) == text::lower(want.name),
        forall|j: int|
            0 <= j < i ==> text::lower((#[trigger] records[j]).key) != text::lower(want.key.text())
                || text::lower(records[j].name) != text::lower(want.name),
        records[i].written is Ok,
        records[i].restore is Ok,
    ensures
        ({
            let step = values::wanted_step(kinds, want, records, machine, overwrite);
            let op = step->Ok_0.forward[0];
            let current = machine.value(want.key, want.name);
            let written = records[i].written->Ok_0;
            let changed = current is Some && current != Some(written) && current != Some(want.data);
            &&& step is Ok
            &&& step->Ok_0.forward.len() == 1
            &&& step->Ok_0.removals.len() == 0
            &&& gives_back(op, records[i].restore->Ok_0)
            &&& changed && !overwrite ==> {
                &&& op.kind == kinds.keep
                &&& says(op, want.key, want.name, written)
                &&& step->Ok_0.findings.len() == 1
                &&& step->Ok_0.findings[0].code == kinds.modified
            }
            &&& !(changed && !overwrite) ==> {
                &&& says(op, want.key, want.name, want.data)
                &&& step->Ok_0.findings.len() == 0
                &&& op.kind == if current == Some(want.data) {
                    kinds.keep
                } else {
                    kinds.set
                }
            }
        }),
{
    lists::lemma_first_at(records, values::is_record(want.key.text(), want.name), i);
}

/// An owned value the package no longer wants: the engine's own goes and what
/// was there before comes back, one somebody changed stays and is reported,
/// and one that is gone is reported.
pub proof fn lemma_an_unwanted_value_is_given_back(
    kinds: KindsView,
    record: RecordView,
    wants: Seq<DesiredValueView>,
    machine: Machine,
    key: KeyView,
)
    requires
        machine::parsed_key(record.key) == Some(key),
        record.written is Ok,
        record.restore is Ok,
    ensures
        ({
            let step = values::owned_step(kinds, record, wants, machine);
            let op = step->Ok_0.removals[0];
            let wanted = exists|i: int|
                0 <= i < wants.len() && (#[trigger] wants[i]).key.key() == key.key() && text::lower(
                    wants[i].name,
                ) == text::lower(record.name);
            &&& step is Ok
            &&& wanted ==> is_silent(step->Ok_0)
            &&& !wanted ==> match machine.value(key, record.name) {
                None => only_reports(step->Ok_0, kinds.missing),
                Some(current) => if current == record.written->Ok_0 {
                    &&& step->Ok_0.forward.len() == 0
                    &&& step->Ok_0.findings.len() == 0
                    &&& step->Ok_0.removals.len() == 1
                    &&& op.kind == kinds.remove
                    &&& says(op, key, record.name, current)
                    &&& gives_back(op, record.restore->Ok_0)
                } else {
                    only_reports(step->Ok_0, kinds.modified)
                },
            }
        }),
{
    let p = values::names_value(key, record.name);
    lists::lemma_first_fits(wants, p);
    if lists::first(wants, p) is Some {
        let x = lists::first(wants, p)->Some_0;
        let i = choose|i: int| 0 <= i < wants.len() && wants[i] == x;
        assert(wants[i].key.key() == key.key());
    } else {
        assert forall|i: int| 0 <= i < wants.len() implies !((#[trigger] wants[i]).key.key()
            == key.key() && text::lower(wants[i].name) == text::lower(record.name)) by {
            assert(!p(wants[i]));
        }
    }
}

/// Registry values are planned as registry values and environment variables as
/// environment variables.
pub proof fn lemma_values_are_planned_as_what_they_are()
    ensures
        values::of_registry().keep == OpKind::KeepRegistryValue,
        values::of_registry().set == OpKind::SetRegistryValue,
        values::of_registry().remove == OpKind::RemoveRegistryValue,
        values::of_environment().keep == OpKind::KeepEnvironmentVariable,
        values::of_environment().set == OpKind::SetEnvironmentVariable,
        values::of_environment().remove == OpKind::RestoreEnvironmentVariable,
        values::of_registry().modified != values::of_registry().missing,
        values::of_environment().modified != values::of_environment().missing,
        values::of_registry().modified != values::of_environment().modified,
{
    reveal_strlit("registry_value_modified_preserved");
    reveal_strlit("registry_value_missing");
    reveal_strlit("environment_variable_modified_preserved");
    reveal_strlit("environment_variable_missing");
    assert("registry_value_modified_preserved"@.len() != "registry_value_missing"@.len());
    assert("environment_variable_modified_preserved"@.len()
        != "environment_variable_missing"@.len());
    assert("environment_variable_modified_preserved"@.len()
        != "registry_value_modified_preserved"@.len());
}

/// A wanted PATH entry: it is appended exactly where no equivalent is present
/// and none was there before the installation; the entry that is kept is the
/// recorded one, and whether it was there before is carried on.
pub proof fn lemma_a_wanted_entry_is_added_unless_it_is_there(
    raw: Seq<char>,
    owned: Seq<OwnedPathEntry>,
    key: KeyView,
    current: Seq<char>,
    machine: Machine,
)
    ensures
        ({
            let step = entries::wanted_step(raw, owned, key, current, machine);
            let op = step->Ok_0.forward[0];
            let form = path::normal(raw, machine);
            let present = exists|i: int|
                0 <= i < path::segments(current).len() && (#[trigger] path::segments(
                    current,
                )[i]).len() > 0 && path::normal(path::segments(current)[i], machine) == form;
            let recorded = exists|i: int|
                0 <= i < owned.len() && text::lower((#[trigger] owned[i]).hive_key@)
                    == text::lower(key.text()) && owned[i].normalized@ == form;
            &&& step is Ok
            &&& step->Ok_0.forward.len() == 1
            &&& step->Ok_0.removals.len() == 0
            &&& step->Ok_0.findings.len() == 0
            &&& op.target == key.text()
            &&& op.value_name == Some("Path"@)
            &&& !recorded ==> {
                &&& op.value_data == Some(raw)
                &&& op.kind == if present {
                    OpKind::KeepPathEntry
                } else {
                    OpKind::AddPathEntry
                }
                &&& present ==> op.previous_existed == Some(true)
            }
            &&& forall|i: int|
                0 <= i < owned.len() && text::lower((#[trigger] owned[i]).hive_key@)
                    == text::lower(key.text()) && owned[i].normalized@ == form && (forall|j: int|
                    0 <= j < i ==> !(text::lower((#[trigger] owned[j]).hive_key@) == text::lower(
                        key.text(),
                    ) && owned[j].normalized@ == form)) ==> {
                    &&& (present || owned[i].pre_existed) ==> op.kind == OpKind::KeepPathEntry
                        && op.value_data == Some(owned[i].raw@) && op.previous_existed == Some(
                        owned[i].pre_existed,
                    )
                    &&& !(present || owned[i].pre_existed) ==> op.kind == OpKind::AddPathEntry
                        && op.value_data == Some(raw)
                }
        }),
{
    let form = path::normal(raw, machine);
    let all = path::segments(current);
    let p = path::is_equivalent(form, machine);
    lists::lemma_position(all, p);
    let present = exists|i: int|
        0 <= i < path::segments(current).len() && (#[trigger] path::segments(current)[i]).len() > 0
            && path::normal(path::segments(current)[i], machine) == form;
    match lists::position(all, p) {
        Some(i) => {
            assert(p(all[i]));
            assert(all[i].len() > 0 && path::normal(all[i], machine) == form);
            assert(present);
        },
        None => {
            if present {
                let i = choose|i: int|
                    0 <= i < path::segments(current).len() && (#[trigger] path::segments(
                        current,
                    )[i]).len() > 0 && path::normal(path::segments(current)[i], machine) == form;
                assert(!p(all[i]));
            }
        },
    }
    let q = entries::is_recorded(key, form);
    lists::lemma_first_fits(owned, q);
    assert forall|i: int|
        0 <= i < owned.len() && text::lower((#[trigger] owned[i]).hive_key@) == text::lower(
            key.text(),
        ) && owned[i].normalized@ == form && (forall|j: int|
            0 <= j < i ==> !(text::lower((#[trigger] owned[j]).hive_key@) == text::lower(key.text())
                && owned[j].normalized@ == form)) implies lists::first(owned, q) == Some(
        owned[i],
    ) by {
        assert forall|j: int| 0 <= j < i implies !q(#[trigger] owned[j]) by {}
        lists::lemma_first_at(owned, q, i);
    }
    if lists::first(owned, q) is Some {
        let x = lists::first(owned, q)->Some_0;
        let i = choose|i: int| 0 <= i < owned.len() && owned[i] == x;
        assert(text::lower(owned[i].hive_key@) == text::lower(key.text()));
    }
}

/// An owned PATH entry the package no longer wants: what the engine added goes
/// where it still stands and is reported where it does not; what was there
/// before the installation stays.
pub proof fn lemma_only_an_added_entry_goes(
    entry: OwnedPathEntry,
    wanted: Seq<Seq<char>>,
    machine: Machine,
    key: KeyView,
    current: Seq<char>,
)
    requires
        machine::parsed_key(entry.hive_key@) == Some(key),
        entries::path_at(key, machine) == Ok::<Seq<char>, ErrorView>(current),
    ensures
        ({
            let step = entries::owned_step(entry, wanted, machine);
            let op = step->Ok_0.removals[0];
            let still = exists|i: int|
                0 <= i < wanted.len() && path::normal(#[trigger] wanted[i], machine)
                    == entry.normalized@;
            let stands = exists|i: int|
                0 <= i < path::segments(current).len() && ((#[trigger] path::segments(current)[i])
                    == entry.raw@ || (path::segments(current)[i].len() > 0 && path::normal(
                    path::segments(current)[i],
                    machine,
                ) == entry.normalized@));
            &&& step is Ok
            &&& (still || !entry.added) ==> is_silent(step->Ok_0)
            &&& !still && entry.added && stands ==> {
                &&& step->Ok_0.forward.len() == 0
                &&& step->Ok_0.findings.len() == 0
                &&& step->Ok_0.removals.len() == 1
                &&& op.kind == OpKind::RemovePathEntry
                &&& op.target == key.text()
                &&& op.value_name == Some("Path"@)
                &&& op.value_data == Some(entry.raw@)
            }
            &&& !still && entry.added && !stands ==> only_reports(
                step->Ok_0,
                "path_entry_missing"@,
            )
        }),
{
    let e = entries::is_equivalent(entry.normalized@, machine);
    lists::lemma_first_fits(wanted, e);
    if lists::first(wanted, e) is Some {
        let x = lists::first(wanted, e)->Some_0;
        let i = choose|i: int| 0 <= i < wanted.len() && wanted[i] == x;
        assert(path::normal(wanted[i], machine) == entry.normalized@);
    } else {
        assert forall|i: int| 0 <= i < wanted.len() implies path::normal(
            #[trigger] wanted[i],
            machine,
        ) != entry.normalized@ by {
            assert(!e(wanted[i]));
        }
    }
    let all = path::segments(current);
    let p = path::is_raw(entry.raw@);
    let q = path::is_equivalent(entry.normalized@, machine);
    lists::lemma_position(all, p);
    lists::lemma_position(all, q);
    let index = path::owned_index(current, entry.raw@, entry.normalized@, machine);
    let stands = exists|i: int|
        0 <= i < path::segments(current).len() && ((#[trigger] path::segments(current)[i])
            == entry.raw@ || (path::segments(current)[i].len() > 0 && path::normal(
            path::segments(current)[i],
            machine,
        ) == entry.normalized@));
    if index is Some {
        let i = index->Some_0;
        assert(p(all[i]) || q(all[i]));
        assert(stands);
    } else if stands {
        let i = choose|i: int|
            0 <= i < path::segments(current).len() && ((#[trigger] path::segments(current)[i])
                == entry.raw@ || (path::segments(current)[i].len() > 0 && path::normal(
                path::segments(current)[i],
                machine,
            ) == entry.normalized@));
        assert(!p(all[i]) && !q(all[i]));
    }
}

/// The PATH of a scope is the text of its `Path` value, and empty where there
/// is none; a value of another type is refused.
pub proof fn lemma_the_path_is_the_path_value(key: KeyView, machine: Machine)
    ensures
        match machine.value(key, "Path"@) {
            None => entries::path_at(key, machine) == Ok::<Seq<char>, ErrorView>(Seq::empty()),
            Some(DataView::String(s)) => entries::path_at(key, machine) == Ok::<
                Seq<char>,
                ErrorView,
            >(s),
            Some(DataView::ExpandString(s)) => entries::path_at(key, machine) == Ok::<
                Seq<char>,
                ErrorView,
            >(s),
            Some(_) => entries::path_at(key, machine) matches Err(e) && e.code
                == "path_value_unreadable"@,
        },
{
}

/// A wanted shortcut is kept where a link at its path reads as wanted in every
/// respect, and written as wanted otherwise.
pub proof fn lemma_a_wanted_shortcut_ends_as_wanted(want: DesiredShortcutView, machine: Machine)
    ensures
        ({
            let step = shortcuts::wanted_step(want, machine);
            let op = step->Ok_0.forward[0];
            let reads = machine.link(want.path) matches LinkInspection::Link(current) && text::lower(
                current@.target,
            ) == text::lower(want.link.target) && current@.arguments == want.link.arguments
                && current@.description == want.link.description && text::lower(current@.icon)
                == text::lower(want.link.icon) && text::lower(current@.working_directory)
                == text::lower(want.link.working_directory) && current@.app_user_model_id
                == want.link.app_user_model_id;
            &&& step is Ok
            &&& step->Ok_0.forward.len() == 1
            &&& step->Ok_0.removals.len() == 0
            &&& step->Ok_0.findings.len() == 0
            &&& op.kind == if reads {
                OpKind::KeepShortcut
            } else {
                OpKind::CreateShortcut
            }
            &&& op.target == want.path
            &&& op.value_data == Some(want.link.target)
            &&& op.link_arguments == Some(want.link.arguments)
            &&& op.link_description == Some(want.link.description)
            &&& op.link_icon == Some(want.link.icon)
            &&& op.link_working_directory == Some(want.link.working_directory)
            &&& op.link_app_user_model_id == Some(want.link.app_user_model_id)
        }),
{
}

/// An owned shortcut the package no longer wants goes only where the link is
/// inside the scope's folders and still the engine's: a web shortcut with the
/// recorded address, or a link into the install root. Any other stays and is
/// reported.
pub proof fn lemma_only_the_engines_shortcut_goes(
    owned: OwnedShortcut,
    wanted: Seq<DesiredShortcutView>,
    install_root: Seq<char>,
    folders: Seq<String>,
    machine: Machine,
)
    requires
        forall|i: int|
            0 <= i < wanted.len() ==> text::lower((#[trigger] wanted[i]).path) != text::lower(
                owned.path@,
            ),
    ensures
        ({
            let step = shortcuts::owned_step(owned, wanted, install_root, folders, machine);
            let op = step->Ok_0.removals[0];
            let own = machine.link(owned.path@) matches LinkInspection::Link(current) && (
            if ".url"@.is_suffix_of(text::lower(owned.path@)) {
                text::lower(current@.target) == text::lower(owned.target@)
            } else {
                shortcut::points_inside(current@.target, install_root)
            });
            &&& shortcut::is_link_path(owned.path@) <==> step is Ok
            &&& step is Ok ==> if !scope::inside(owned.path@, folders) {
                only_reports(step->Ok_0, "shortcut_outside_scope_preserved"@)
            } else if machine.link(owned.path@) is Absent {
                only_reports(step->Ok_0, "shortcut_missing"@)
            } else if own {
                &&& step->Ok_0.forward.len() == 0
                &&& step->Ok_0.findings.len() == 0
                &&& step->Ok_0.removals.len() == 1
                &&& op.kind == OpKind::RemoveShortcut
                &&& op.target == owned.path@
                &&& op.value_data == Some(owned.target@)
            } else {
                only_reports(step->Ok_0, "shortcut_modified_preserved"@)
            }
        }),
{
    lists::lemma_first_none(wanted, shortcuts::stands_at(owned.path@));
}

/// An owned shortcut the package still wants is left to the wanted side.
pub proof fn lemma_a_wanted_shortcut_is_not_removed(
    owned: OwnedShortcut,
    wanted: Seq<DesiredShortcutView>,
    install_root: Seq<char>,
    folders: Seq<String>,
    machine: Machine,
    i: int,
)
    requires
        0 <= i < wanted.len(),
        text::lower(wanted[i].path) == text::lower(owned.path@),
    ensures
        shortcuts::owned_step(owned, wanted, install_root, folders, machine) matches Ok(step)
            && is_silent(step),
{
    let p = shortcuts::stands_at(owned.path@);
    lists::lemma_first_fits(wanted, p);
    assert(p(wanted[i]));
}

/// Whether two rules are the same in all that is compared: of the program the
/// case does not count.
pub open spec fn same_rule(a: RuleView, b: RuleView) -> bool {
    &&& a.name == b.name
    &&& a.description == b.description
    &&& a.grouping == b.grouping
    &&& text::lower(a.program) == text::lower(b.program)
    &&& a.direction == b.direction
    &&& a.action == b.action
    &&& a.protocol == b.protocol
    &&& a.local_ports == b.local_ports
    &&& a.enabled == b.enabled
}

/// Whether a step does one thing with one rule.
pub open spec fn does(step: PartView, kind: OpKind, rule: RuleView) -> bool {
    &&& step.forward.len() == 1
    &&& step.removals.len() == 0
    &&& step.forward[0].kind == kind
    &&& step.forward[0].target == rule.name
    &&& step.forward[0].value_data == Some(rule.stored())
}

/// A wanted rule, in a run that may write: it is written where no rule has its
/// name; of one rule with its name the product's own is kept where it reads as
/// wanted, kept as it was written and reported where somebody changed it and
/// the run is no repair, and written otherwise; a stranger's stays and is
/// reported, as are several rules of the name.
pub proof fn lemma_a_wanted_rule_ends_as_wanted(
    want: RuleView,
    recorded: Option<RuleView>,
    existing: Seq<RuleView>,
    repair: bool,
)
    ensures
        ({
            let step = rules::decided(want, recorded, existing, repair);
            let current = existing[0];
            &&& existing.len() == 0 ==> does(step, OpKind::CreateFirewallRule, want)
                && step.findings.len() == 0
            &&& existing.len() == 1 && same_rule(current, want) ==> does(
                step,
                OpKind::KeepFirewallRule,
                want,
            ) && step.findings.len() == 0
            &&& existing.len() == 1 && !same_rule(current, want) ==> match recorded {
                None => only_reports(step, "firewall_rule_name_in_use_preserved"@),
                Some(rule) => if !same_rule(current, rule) && !repair {
                    does(step, OpKind::KeepFirewallRule, rule) && step.findings.len() == 1
                        && step.findings[0].code == "firewall_rule_modified_preserved"@
                } else {
                    does(step, OpKind::CreateFirewallRule, want) && step.findings.len() == 0
                },
            }
            &&& existing.len() > 1 ==> {
                &&& step.removals.len() == 0
                &&& step.findings.len() == 1
                &&& step.findings[0].code == "firewall_rule_ambiguous_preserved"@
                &&& match recorded {
                    None => step.forward.len() == 0,
                    Some(rule) => does(step, OpKind::KeepFirewallRule, rule),
                }
            }
        }),
{
}

/// A wanted rule is judged by the record of its name and by the machine's
/// rules of its name; a run that may not write keeps what is on record and
/// says that it skipped the rule.
pub proof fn lemma_a_rule_is_judged_by_its_name(
    want: RuleView,
    owned: Seq<OwnedFirewallRule>,
    machine: Machine,
    repair: bool,
    i: int,
)
    requires
        -1 <= i < owned.len(),
        forall|j: int|
            0 <= j < owned.len() && (i == -1 || j < i) ==> text::lower((#[trigger] owned[j]).name@)
                != text::lower(want.name),
        i >= 0 ==> text::lower(owned[i].name@) == text::lower(want.name),
        i >= 0 ==> machine::rule_in(owned[i].rule@) is Ok,
    ensures
        ({
            let recorded = if i >= 0 {
                Some(machine::rule_in(owned[i].rule@)->Ok_0)
            } else {
                None
            };
            let skipped = rules::wanted_step(want, owned, machine, false, repair);
            &&& rules::wanted_step(want, owned, machine, true, repair) == Ok::<PartView, ErrorView>(
                rules::decided(want, recorded, machine.rules_named(want.name), repair),
            )
            &&& skipped is Ok
            &&& skipped->Ok_0.findings.len() == 1
            &&& skipped->Ok_0.findings[0].code == "firewall_rule_skipped_unelevated"@
            &&& match recorded {
                None => skipped->Ok_0.forward.len() == 0,
                Some(rule) => does(skipped->Ok_0, OpKind::KeepFirewallRule, rule),
            }
        }),
{
    let p = rules::is_recorded(want.name);
    if i >= 0 {
        lists::lemma_first_at(owned, p, i);
    } else {
        lists::lemma_first_none(owned, p);
    }
}

/// An owned rule the package no longer wants goes only where it is the one
/// rule of its name and still reads as recorded; any other stays and is
/// reported.
pub proof fn lemma_only_the_recorded_rule_goes(
    name: Seq<char>,
    recorded: RuleView,
    existing: Seq<RuleView>,
)
    ensures
        ({
            let step = rules::dropped(name, recorded, existing);
            let current = existing[0];
            &&& step.forward.len() == 0
            &&& step.removals.len() + step.findings.len() == 1
            &&& step.removals.len() == 1 <==> existing.len() == 1 && same_rule(current, recorded)
            &&& step.removals.len() == 1 ==> step.removals[0].kind == OpKind::RemoveFirewallRule
                && step.removals[0].target == recorded.name && step.removals[0].value_data == Some(
                recorded.stored(),
            )
            &&& existing.len() == 0 ==> only_reports(step, "firewall_rule_missing"@)
            &&& existing.len() > 1 ==> only_reports(step, "firewall_rule_ambiguous_preserved"@)
            &&& existing.len() == 1 && !same_rule(current, recorded) ==> only_reports(
                step,
                if current.grouping == recorded.grouping {
                    "firewall_rule_modified_preserved"@
                } else {
                    "firewall_rule_name_in_use_preserved"@
                },
            )
        }),
{
}

/// An owned rule is given back exactly where no wanted rule has its name.
pub proof fn lemma_a_wanted_rule_is_not_removed(
    record: OwnedFirewallRule,
    wanted: Seq<RuleView>,
    machine: Machine,
    rule: RuleView,
)
    requires
        machine::rule_in(record.rule@) == Ok::<RuleView, ErrorView>(rule),
    ensures
        ({
            let still = exists|i: int|
                0 <= i < wanted.len() && text::lower((#[trigger] wanted[i]).name) == text::lower(
                    record.name@,
                );
            let step = rules::owned_step(record, wanted, machine, true);
            let skipped = rules::owned_step(record, wanted, machine, false);
            &&& step is Ok && skipped is Ok
            &&& still ==> is_silent(step->Ok_0) && is_silent(skipped->Ok_0)
            &&& !still ==> step->Ok_0 == rules::dropped(
                record.name@,
                rule,
                machine.rules_named(record.name@),
            )
            &&& !still ==> does(skipped->Ok_0, OpKind::KeepFirewallRule, rule)
                && skipped->Ok_0.findings.len() == 1 && skipped->Ok_0.findings[0].code
                == "firewall_rule_skipped_unelevated"@
        }),
{
    let p = rules::is_named(record.name@);
    lists::lemma_first_fits(wanted, p);
    if lists::first(wanted, p) is Some {
        let x = lists::first(wanted, p)->Some_0;
        let i = choose|i: int| 0 <= i < wanted.len() && wanted[i] == x;
        assert(text::lower(wanted[i].name) == text::lower(record.name@));
    } else {
        assert forall|i: int| 0 <= i < wanted.len() implies text::lower(
            (#[trigger] wanted[i]).name,
        ) != text::lower(record.name@) by {
            assert(!p(wanted[i]));
        }
    }
}

/// A wanted directory is created unless it is on record and, where the run
/// looks, there; who made it is carried on.
pub proof fn lemma_a_wanted_directory_ends_there(
    directory: Seq<char>,
    owned: Seq<OwnedDirectory>,
    install_root: Seq<char>,
    inspect: bool,
    machine: Machine,
    at: Seq<char>,
)
    requires
        target::placed_at(install_root, directory) == Ok::<Seq<char>, ErrorView>(at),
    ensures
        ({
            let step = files::directory_step(directory, owned, install_root, inspect, machine);
            let op = step->Ok_0.forward[0];
            let known = exists|i: int|
                0 <= i < owned.len() && text::lower((#[trigger] owned[i]).path@) == text::lower(
                    directory,
                );
            &&& step is Ok
            &&& step->Ok_0.forward.len() == 1
            &&& step->Ok_0.removals.len() == 0
            &&& step->Ok_0.findings.len() == 0
            &&& op.target == directory
            &&& op.kind == if known && (!inspect || machine.has_directory(at)) {
                OpKind::KeepDirectory
            } else {
                OpKind::CreateDirectory
            }
            &&& op.kind == OpKind::KeepDirectory ==> forall|i: int|
                0 <= i < owned.len() && text::lower((#[trigger] owned[i]).path@) == text::lower(
                    directory,
                ) && (forall|j: int|
                    i < j < owned.len() ==> text::lower((#[trigger] owned[j]).path@) != text::lower(
                        directory,
                    )) ==> op.previous_existed == Some(!owned[i].created)
        }),
{
    let p = files::directory_named(directory);
    lists::lemma_last_fits(owned, p);
    if lists::last(owned, p) is Some {
        let x = lists::last(owned, p)->Some_0;
        let i = choose|i: int| 0 <= i < owned.len() && #[trigger] owned[i] == x && p(x);
        assert(text::lower(owned[i].path@) == text::lower(directory));
    } else {
        assert forall|i: int| 0 <= i < owned.len() implies text::lower(
            (#[trigger] owned[i]).path@,
        ) != text::lower(directory) by {
            assert(!p(owned[i]));
        }
    }
    assert forall|i: int|
        0 <= i < owned.len() && text::lower((#[trigger] owned[i]).path@) == text::lower(directory)
            && (forall|j: int|
            i < j < owned.len() ==> text::lower((#[trigger] owned[j]).path@) != text::lower(
                directory,
            )) implies lists::last(owned, p) == Some(owned[i]) by {
        assert forall|j: int| i < j < owned.len() implies !p(#[trigger] owned[j]) by {}
        lists::lemma_last_at(owned, p, i);
    }
}

/// An owned file the package no longer wants goes where it is what was
/// recorded, by its hash or by its size and time; one somebody changed stays
/// and is reported, and one that is gone is reported. One that is still wanted
/// is left to the wanted side.
pub proof fn lemma_only_an_unchanged_file_goes(
    file: OwnedFile,
    wanted: Seq<DesiredFileView>,
    install_root: Seq<char>,
    machine: Machine,
    at: Seq<char>,
)
    requires
        target::placed_at(install_root, file.path@) == Ok::<Seq<char>, ErrorView>(at),
    ensures
        ({
            let step = files::file_removal(file, wanted, install_root, machine);
            let op = step->Ok_0.removals[0];
            let still = exists|i: int|
                0 <= i < wanted.len() && text::lower((#[trigger] wanted[i]).path) == text::lower(
                    file.path@,
                );
            &&& step is Ok
            &&& still ==> is_silent(step->Ok_0)
            &&& !still ==> match machine.file(at) {
                None => only_reports(step->Ok_0, "file_missing"@),
                Some(seen) => if seen.sha256@ == file.sha256@ || (file.modified is Some
                    && seen.modified == file.modified && seen.size == file.size) {
                    &&& step->Ok_0.forward.len() == 0
                    &&& step->Ok_0.findings.len() == 0
                    &&& step->Ok_0.removals.len() == 1
                    &&& op.kind == OpKind::RemoveFile
                    &&& op.target == file.path@
                } else {
                    only_reports(step->Ok_0, "file_modified_preserved"@)
                },
            }
        }),
{
    let p = files::wants_path(file.path@);
    lists::lemma_first_fits(wanted, p);
    if lists::first(wanted, p) is Some {
        let x = lists::first(wanted, p)->Some_0;
        let i = choose|i: int| 0 <= i < wanted.len() && wanted[i] == x;
        assert(text::lower(wanted[i].path) == text::lower(file.path@));
    } else {
        assert forall|i: int| 0 <= i < wanted.len() implies text::lower(
            (#[trigger] wanted[i]).path,
        ) != text::lower(file.path@) by {
            assert(!p(wanted[i]));
        }
    }
}

/// The directories that go are exactly the ones the engine created that the
/// package no longer wants and that hold no preserved file.
pub proof fn lemma_which_directories_go(
    owned: Seq<OwnedDirectory>,
    wanted: Seq<Seq<char>>,
    preserved: Seq<Seq<char>>,
    i: int,
)
    requires
        0 <= i < owned.len(),
        owned[i].created,
        forall|j: int|
            0 <= j < wanted.len() ==> text::lower(#[trigger] wanted[j]) != text::lower(
                owned[i].path@,
            ),
        forall|j: int|
            0 <= j < preserved.len() ==> owned[i].path@.len() > 0 && !text::lower(
                owned[i].path@,
            ).push('\\').is_prefix_of(text::lower(#[trigger] preserved[j])),
    ensures
        files::gone(owned, wanted, preserved).contains(owned[i].path@),
{
    let p = files::goes(wanted, preserved);
    assert forall|j: int| 0 <= j < wanted.len() implies !files::is_path(owned[i].path@)(
        #[trigger] wanted[j],
    ) by {}
    lists::lemma_first_none(wanted, files::is_path(owned[i].path@));
    assert(!files::leads_to(owned[i].path@, preserved));
    assert(p(owned[i]));
    let kept = owned.filter(p);
    lists::lemma_filter_holds(owned, p, i);
    let k = choose|k: int| 0 <= k < kept.len() && kept[k] == owned[i];
    let paths = files::directory_paths(kept);
    assert(paths[k] == owned[i].path@);
    assert(paths.contains(owned[i].path@));
    lists::lemma_deep_first_is_a_permutation(paths);
    assert(files::gone(owned, wanted, preserved).contains(owned[i].path@));
}

/// A key the run needs is created where it is not there, carried on with its
/// maker where it is on record, and left alone where it is somebody else's.
pub proof fn lemma_a_needed_key_ends_there(
    done: KeysView,
    key: KeyView,
    machine: Machine,
    owned: Seq<OwnedRegistryKey>,
)
    requires
        !done.handled.contains(key.key()),
    ensures
        ({
            let next = keys::with_key(done, key, machine, owned);
            let known = exists|i: int|
                0 <= i < owned.len() && text::lower((#[trigger] owned[i]).key@) == key.key();
            let op = next.operations.last();
            &&& !machine.has_key(key) ==> next.operations == done.operations.push(op) && op.kind
                == OpKind::CreateRegistryKey && op.target == key.text()
            &&& machine.has_key(key) && known ==> next.operations == done.operations.push(op)
                && op.kind == OpKind::KeepRegistryKey && op.target == key.text()
            &&& machine.has_key(key) && known ==> forall|i: int|
                0 <= i < owned.len() && text::lower((#[trigger] owned[i]).key@) == key.key() && (
                forall|j: int|
                    i < j < owned.len() ==> text::lower((#[trigger] owned[j]).key@) != key.key())
                    ==> op.previous_existed == Some(!owned[i].created)
            &&& machine.has_key(key) && !known ==> next == done
            &&& next.handled.contains(key.key()) <==> !machine.has_key(key) || known
        }),
{
    let p = keys::record_named(key.key());
    lists::lemma_last_fits(owned, p);
    if lists::last(owned, p) is Some {
        let x = lists::last(owned, p)->Some_0;
        let i = choose|i: int| 0 <= i < owned.len() && #[trigger] owned[i] == x && p(x);
        assert(text::lower(owned[i].key@) == key.key());
    } else {
        assert forall|i: int| 0 <= i < owned.len() implies text::lower((#[trigger] owned[i]).key@)
            != key.key() by {
            assert(!p(owned[i]));
        }
    }
    assert forall|i: int|
        0 <= i < owned.len() && text::lower((#[trigger] owned[i]).key@) == key.key() && (forall|
            j: int,
        |
            i < j < owned.len() ==> text::lower((#[trigger] owned[j]).key@) != key.key())
            implies lists::last(owned, p) == Some(owned[i]) by {
        assert forall|j: int| i < j < owned.len() implies !p(#[trigger] owned[j]) by {}
        lists::lemma_last_at(owned, p, i);
    }
    let next = keys::with_key(done, key, machine, owned);
    if next.handled.len() > done.handled.len() {
        assert(next.handled[next.handled.len() - 1] == key.key());
    }
}

/// The keys the product created that the run does not handle all go.
pub proof fn lemma_which_keys_go(
    owned: Seq<OwnedRegistryKey>,
    handled: Seq<Seq<char>>,
    i: int,
)
    requires
        0 <= i < owned.len(),
        owned[i].created,
        !handled.contains(text::lower(owned[i].key@)),
    ensures
        keys::gone(owned, handled).contains(owned[i].key@),
{
    let p = keys::goes(handled);
    assert(p(owned[i]));
    let kept = owned.filter(p);
    lists::lemma_filter_holds(owned, p, i);
    let k = choose|k: int| 0 <= k < kept.len() && kept[k] == owned[i];
    let names = keys::names(kept);
    assert(names[k] == owned[i].key@);
    assert(names.contains(owned[i].key@));
    lists::lemma_deep_first_is_a_permutation(names);
    assert(keys::gone(owned, handled).contains(owned[i].key@));
}

}
