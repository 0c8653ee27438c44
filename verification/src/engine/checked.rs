//! What holds of checking an installation: everything it owns is looked at,
//! and what is not as recorded is reported.

use vstd::prelude::*;

use crate::engine::checks;
use crate::engine::checks::Mark;
use crate::engine::inspect;
use crate::engine::package::{Package, RootsView};
use crate::engine::verify;
use crate::engine::verify::{Marks, State};
use crate::error::{Error, ErrorView};
use crate::lists;
use crate::machine;
use crate::machine::{LinkInspection, Machine};
use crate::metadata::Metadata;
use crate::plan::target;
use crate::report::documents::{OwnedResources, PackageInfo, VerifyReport};
use crate::report::{finding, FindingView};
use crate::resource::integration;
use crate::resource::integration::IntegrationView;
use crate::resource::path;
use crate::resource::predicate::OptionEntry;
use crate::state::installation::Owned;
use crate::text;

verus! {

/// What is reported is exactly what is wrong.
pub proof fn lemma_what_is_wrong_is_reported(marks: Seq<Mark>, f: FindingView)
    ensures
        checks::wrong(marks).contains(f) <==> marks.contains(Mark::Wrong(f)),
    decreases marks.len(),
{
    if marks.len() > 0 {
        let before = marks.drop_last();
        let n = marks.len() - 1;
        lemma_what_is_wrong_is_reported(before, f);
        let a = checks::wrong(before);
        let b = checks::wrong(marks);
        if a.contains(f) {
            let i = choose|i: int| 0 <= i < a.len() && a[i] == f;
            assert(b[i] == f);
            let k = choose|k: int| 0 <= k < before.len() && before[k] == Mark::Wrong(f);
            assert(marks[k] == Mark::Wrong(f));
        }
        if b.contains(f) && !a.contains(f) {
            let i = choose|i: int| 0 <= i < b.len() && b[i] == f;
            if i < a.len() {
                assert(a[i] == f);
            }
            assert(marks[n] == Mark::Wrong(f));
        }
        if marks.contains(Mark::Wrong(f)) {
            let k = choose|k: int| 0 <= k < marks.len() && marks[k] == Mark::Wrong(f);
            if k < n {
                assert(before[k] == Mark::Wrong(f));
                assert(before.contains(Mark::Wrong(f)));
            } else {
                assert(b[b.len() - 1] == f);
            }
        }
    }
}

/// How many were looked at, and how many of them are as recorded: the rest is
/// reported.
pub proof fn lemma_what_is_counted(marks: Seq<Mark>)
    ensures
        checks::checked(marks) == checks::fine(marks) + checks::wrong(marks).len(),
        checks::checked(marks) <= marks.len(),
        (forall|i: int| 0 <= i < marks.len() ==> !((#[trigger] marks[i]) is Skipped))
            ==> checks::checked(marks) == marks.len(),
    decreases marks.len(),
{
    if marks.len() > 0 {
        let before = marks.drop_last();
        lemma_what_is_counted(before);
        if forall|i: int| 0 <= i < marks.len() ==> !((#[trigger] marks[i]) is Skipped) {
            assert forall|i: int| 0 <= i < before.len() implies !((#[trigger] before[i])
                is Skipped) by {
                assert(before[i] == marks[i]);
            }
            assert(!(marks[marks.len() - 1] is Skipped));
        }
    }
}

/// Whether a finding is among those of a whole check.
proof fn lemma_part_of_all(m: Marks, owned: Owned, machine: Machine, f: FindingView)
    requires
        ({
            ||| checks::wrong(m.files).contains(f)
            ||| checks::wrong(m.directories).contains(f)
            ||| verify::unregistered(owned, machine).contains(f)
            ||| checks::wrong(m.values).contains(f)
            ||| checks::wrong(m.entries).contains(f)
            ||| checks::wrong(m.shortcuts).contains(f)
            ||| checks::wrong(m.variables).contains(f)
            ||| checks::wrong(m.rules).contains(f)
            ||| checks::wrong(m.programs).contains(f)
        }),
    ensures
        verify::all_wrong(m, owned, machine).contains(f),
{
    let a = checks::wrong(m.files);
    let b = a + checks::wrong(m.directories);
    let c = b + verify::unregistered(owned, machine);
    let d = c + checks::wrong(m.values);
    let e = d + checks::wrong(m.entries);
    let g = e + checks::wrong(m.shortcuts);
    let h = g + checks::wrong(m.variables);
    let i = h + checks::wrong(m.rules);
    lemma_in_sum(a, checks::wrong(m.directories), f);
    lemma_in_sum(b, verify::unregistered(owned, machine), f);
    lemma_in_sum(c, checks::wrong(m.values), f);
    lemma_in_sum(d, checks::wrong(m.entries), f);
    lemma_in_sum(e, checks::wrong(m.shortcuts), f);
    lemma_in_sum(g, checks::wrong(m.variables), f);
    lemma_in_sum(h, checks::wrong(m.rules), f);
    lemma_in_sum(i, checks::wrong(m.programs), f);
}

proof fn lemma_in_sum(a: Seq<FindingView>, b: Seq<FindingView>, f: FindingView)
    ensures
        a.contains(f) || b.contains(f) ==> (a + b).contains(f),
{
    if a.contains(f) {
        let i = choose|i: int| 0 <= i < a.len() && a[i] == f;
        assert((a + b)[i] == f);
    }
    if b.contains(f) {
        let i = choose|i: int| 0 <= i < b.len() && b[i] == f;
        assert((a + b)[a.len() + i] == f);
    }
}

/// Whether a mark of a whole check is not wrong where nothing is reported.
proof fn lemma_marks_are_reported(marks: Seq<Mark>, i: int)
    requires
        0 <= i < marks.len(),
        marks[i] is Wrong,
    ensures
        checks::wrong(marks).contains(marks[i]->Wrong_0),
{
    assert(marks[i] == Mark::Wrong(marks[i]->Wrong_0));
    lemma_what_is_wrong_is_reported(marks, marks[i]->Wrong_0);
}

/// An owned file that is not there, or holds something else, is reported; one
/// that is there as recorded is fine.
pub proof fn lemma_every_owned_file_is_checked(
    owned: Owned,
    root: Seq<char>,
    state: Seq<char>,
    machine: Machine,
    i: int,
)
    requires
        verify::marks(owned, root, state, machine) is Ok,
        0 <= i < owned.files@.len(),
    ensures
        ({
            let m = verify::marks(owned, root, state, machine)->Ok_0;
            let f = owned.files@[i];
            let at = target::placed_at(root, f.path@);
            let found = verify::all_wrong(m, owned, machine);
            &&& m.files.len() == owned.files@.len()
            &&& m.files[i] is Fine <==> at is Ok && (machine.file(at->Ok_0) matches Some(seen)
                && seen.sha256@ == f.sha256@)
            &&& !(m.files[i] is Skipped)
            &&& at is Ok && machine.file(at->Ok_0) is None ==> found.contains(
                finding("file_missing"@, at->Ok_0),
            )
            &&& at is Ok && (machine.file(at->Ok_0) matches Some(seen) && seen.sha256@ != f.sha256@)
                ==> found.contains(finding("file_modified"@, at->Ok_0))
            &&& at is Err ==> found.contains(
                FindingView {
                    code: "path_outside_root"@,
                    path: Some(f.path@),
                    detail: Some(at->Err_0.message),
                },
            )
        }),
{
    let m = verify::marks(owned, root, state, machine)->Ok_0;
    let steps = owned.files@.map_values(checks::file_mark(root, machine));
    lists::lemma_all_gives(steps);
    assert(steps[i] == Ok::<Mark, ErrorView>(m.files[i]));
    if m.files[i] is Wrong {
        lemma_marks_are_reported(m.files, i);
        lemma_part_of_all(m, owned, machine, m.files[i]->Wrong_0);
    }
}

/// An owned directory that is not there is reported.
pub proof fn lemma_every_owned_directory_is_checked(
    owned: Owned,
    root: Seq<char>,
    state: Seq<char>,
    machine: Machine,
    i: int,
)
    requires
        verify::marks(owned, root, state, machine) is Ok,
        0 <= i < owned.directories@.len(),
    ensures
        ({
            let m = verify::marks(owned, root, state, machine)->Ok_0;
            let at = target::placed_at(root, owned.directories@[i].path@);
            let found = verify::all_wrong(m, owned, machine);
            &&& m.directories.len() == owned.directories@.len()
            &&& m.directories[i] is Fine <==> at is Ok && machine.has_directory(at->Ok_0)
            &&& !(m.directories[i] is Skipped)
            &&& at is Ok && !machine.has_directory(at->Ok_0) ==> found.contains(
                finding("directory_missing"@, at->Ok_0),
            )
        }),
{
    let m = verify::marks(owned, root, state, machine)->Ok_0;
    let steps = owned.directories@.map_values(checks::directory_mark(root, machine));
    lists::lemma_all_gives(steps);
    assert(steps[i] == Ok::<Mark, ErrorView>(m.directories[i]));
    if m.directories[i] is Wrong {
        lemma_marks_are_reported(m.directories, i);
        lemma_part_of_all(m, owned, machine, m.directories[i]->Wrong_0);
    }
}

/// An owned registry value that is not there, or is another, is reported as
/// the registration's or the product's.
pub proof fn lemma_every_owned_value_is_checked(
    owned: Owned,
    root: Seq<char>,
    state: Seq<char>,
    machine: Machine,
    i: int,
)
    requires
        verify::marks(owned, root, state, machine) is Ok,
        0 <= i < owned.registry_values@.len(),
    ensures
        ({
            let m = verify::marks(owned, root, state, machine)->Ok_0;
            let v = owned.registry_values@[i];
            let key = machine::parsed_key(v.key@);
            let written = machine::data_from(v.kind@, v.data@);
            let now = machine.value(key->Some_0, v.name@);
            let registers = owned.registration_key matches Some(k) && text::lower(k@)
                == text::lower(v.key@);
            let place = v.key@ + "\\"@ + v.name@;
            let found = verify::all_wrong(m, owned, machine);
            &&& m.values.len() == owned.registry_values@.len()
            &&& m.values[i] is Fine <==> key is Some && written is Some && now == written
            &&& !(m.values[i] is Skipped)
            &&& key is Some && now is None ==> found.contains(
                finding(
                    if registers {
                        "registration_missing"@
                    } else {
                        "registry_value_missing"@
                    },
                    place,
                ),
            )
            &&& key is Some && now is Some && now != written ==> found.contains(
                finding(
                    if registers {
                        "registration_modified"@
                    } else {
                        "registry_value_modified"@
                    },
                    place,
                ),
            )
        }),
{
    let m = verify::marks(owned, root, state, machine)->Ok_0;
    let v = owned.registry_values@[i];
    let steps = owned.registry_values@.map_values(
        checks::value_mark(text::option_view(owned.registration_key), machine),
    );
    lists::lemma_all_gives(steps);
    assert(steps[i] == Ok::<Mark, ErrorView>(m.values[i]));
    if m.values[i] is Wrong {
        lemma_marks_are_reported(m.values, i);
        lemma_part_of_all(m, owned, machine, m.values[i]->Wrong_0);
    }
}

/// An owned environment variable that is not there, or is another, is
/// reported.
pub proof fn lemma_every_owned_variable_is_checked(
    owned: Owned,
    root: Seq<char>,
    state: Seq<char>,
    machine: Machine,
    i: int,
)
    requires
        verify::marks(owned, root, state, machine) is Ok,
        0 <= i < owned.environment_variables@.len(),
    ensures
        ({
            let m = verify::marks(owned, root, state, machine)->Ok_0;
            let v = owned.environment_variables@[i];
            let key = machine::parsed_key(v.hive_key@);
            let written = machine::data_from(v.kind@, v.data@);
            let now = machine.value(key->Some_0, v.name@);
            let place = v.hive_key@ + "\\"@ + v.name@;
            let found = verify::all_wrong(m, owned, machine);
            &&& m.variables.len() == owned.environment_variables@.len()
            &&& m.variables[i] is Fine <==> key is Some && written is Some && now == written
            &&& !(m.variables[i] is Skipped)
            &&& key is Some && now is None ==> found.contains(
                finding("environment_variable_missing"@, place),
            )
            &&& key is Some && now is Some && now != written ==> found.contains(
                finding("environment_variable_modified"@, place),
            )
        }),
{
    let m = verify::marks(owned, root, state, machine)->Ok_0;
    let steps = owned.environment_variables@.map_values(checks::variable_mark(machine));
    lists::lemma_all_gives(steps);
    assert(steps[i] == Ok::<Mark, ErrorView>(m.variables[i]));
    if m.variables[i] is Wrong {
        lemma_marks_are_reported(m.variables, i);
        lemma_part_of_all(m, owned, machine, m.variables[i]->Wrong_0);
    }
}

/// An owned shortcut that is not there, or leads elsewhere, is reported.
pub proof fn lemma_every_owned_shortcut_is_checked(
    owned: Owned,
    root: Seq<char>,
    state: Seq<char>,
    machine: Machine,
    i: int,
)
    requires
        verify::marks(owned, root, state, machine) is Ok,
        0 <= i < owned.shortcuts@.len(),
    ensures
        ({
            let m = verify::marks(owned, root, state, machine)->Ok_0;
            let s = owned.shortcuts@[i];
            let there = machine.link(s.path@);
            let same = there matches LinkInspection::Link(l) && text::lower(l.target@)
                == text::lower(s.target@);
            let found = verify::all_wrong(m, owned, machine);
            &&& m.shortcuts.len() == owned.shortcuts@.len()
            &&& m.shortcuts[i] is Fine <==> same
            &&& !(m.shortcuts[i] is Skipped)
            &&& there is Absent ==> found.contains(finding("shortcut_missing"@, s.path@))
            &&& !(there is Absent) && !same ==> found.contains(
                finding("shortcut_modified"@, s.path@),
            )
        }),
{
    let m = verify::marks(owned, root, state, machine)->Ok_0;
    let steps = owned.shortcuts@.map_values(checks::shortcut_mark(machine));
    lists::lemma_all_gives(steps);
    assert(steps[i] == Ok::<Mark, ErrorView>(m.shortcuts[i]));
    if m.shortcuts[i] is Wrong {
        lemma_marks_are_reported(m.shortcuts, i);
        lemma_part_of_all(m, owned, machine, m.shortcuts[i]->Wrong_0);
    }
}

/// An owned firewall rule has to be there once and read as recorded.
pub proof fn lemma_every_owned_rule_is_checked(
    owned: Owned,
    root: Seq<char>,
    state: Seq<char>,
    machine: Machine,
    i: int,
)
    requires
        verify::marks(owned, root, state, machine) is Ok,
        0 <= i < owned.firewall_rules@.len(),
    ensures
        ({
            let m = verify::marks(owned, root, state, machine)->Ok_0;
            let o = owned.firewall_rules@[i];
            let recorded = machine::rule_in(o.rule@);
            let there = machine.rules_named(o.name@);
            let same = recorded is Ok && there.len() == 1 && there[0].name == recorded->Ok_0.name
                && text::lower(there[0].program) == text::lower(recorded->Ok_0.program)
                && there[0].direction == recorded->Ok_0.direction && there[0].action
                == recorded->Ok_0.action && there[0].protocol == recorded->Ok_0.protocol
                && there[0].local_ports == recorded->Ok_0.local_ports && there[0].enabled
                == recorded->Ok_0.enabled && there[0].grouping == recorded->Ok_0.grouping
                && there[0].description == recorded->Ok_0.description;
            let found = verify::all_wrong(m, owned, machine);
            &&& m.rules.len() == owned.firewall_rules@.len()
            &&& recorded is Ok
            &&& m.rules[i] is Fine <==> same
            &&& !(m.rules[i] is Skipped)
            &&& there.len() == 0 ==> found.contains(finding("firewall_rule_missing"@, o.name@))
            &&& there.len() > 0 && !same ==> found.contains(
                finding("firewall_rule_modified"@, o.name@),
            )
        }),
{
    let m = verify::marks(owned, root, state, machine)->Ok_0;
    let steps = owned.firewall_rules@.map_values(checks::rule_mark(machine));
    lists::lemma_all_gives(steps);
    assert(steps[i] == Ok::<Mark, ErrorView>(m.rules[i]));
    if m.rules[i] is Wrong {
        lemma_marks_are_reported(m.rules, i);
        lemma_part_of_all(m, owned, machine, m.rules[i]->Wrong_0);
    }
}

/// An owned PATH entry is looked for where the package added it, and reported
/// where the path no longer holds it.
pub proof fn lemma_every_owned_path_entry_is_checked(
    owned: Owned,
    root: Seq<char>,
    state: Seq<char>,
    machine: Machine,
    i: int,
)
    requires
        verify::marks(owned, root, state, machine) is Ok,
        0 <= i < owned.path_entries@.len(),
    ensures
        ({
            let m = verify::marks(owned, root, state, machine)->Ok_0;
            let e = owned.path_entries@[i];
            let key = machine::parsed_key(e.hive_key@);
            let text = path::path_text(machine.value(key->Some_0, "Path"@));
            let there = key is Some && path::owned_index(
                text->Some_0.0,
                e.raw@,
                e.normalized@,
                machine,
            ) is Some;
            &&& m.entries.len() == owned.path_entries@.len()
            &&& m.entries[i] is Skipped <==> !e.added
            &&& e.added && key is Some ==> text is Some
            &&& e.added ==> (m.entries[i] is Fine <==> there)
            &&& e.added && !there ==> verify::all_wrong(m, owned, machine).contains(
                finding("path_entry_missing"@, e.hive_key@ + "\\"@ + "Path"@ + " "@ + e.raw@),
            )
        }),
{
    let m = verify::marks(owned, root, state, machine)->Ok_0;
    let steps = owned.path_entries@.map_values(checks::entry_mark(machine));
    lists::lemma_all_gives(steps);
    assert(steps[i] == Ok::<Mark, ErrorView>(m.entries[i]));
    if m.entries[i] is Wrong {
        lemma_marks_are_reported(m.entries, i);
        lemma_part_of_all(m, owned, machine, m.entries[i]->Wrong_0);
    }
}

/// A program kept for the uninstall has to be there as recorded.
pub proof fn lemma_every_kept_program_is_checked(
    owned: Owned,
    root: Seq<char>,
    state: Seq<char>,
    machine: Machine,
    i: int,
)
    requires
        verify::marks(owned, root, state, machine) is Ok,
        0 <= i < owned.actions@.len(),
        owned.actions@[i].artifact_sha256 is Some,
        owned.actions@[i].artifact_file is Some,
    ensures
        ({
            let m = verify::marks(owned, root, state, machine)->Ok_0;
            let hash = owned.actions@[i].artifact_sha256->Some_0@;
            let file = owned.actions@[i].artifact_file->Some_0@;
            let at = target::joined(
                target::joined(target::joined(state, "actions"@), hash),
                file,
            );
            let there = machine.file(at);
            let found = verify::all_wrong(m, owned, machine);
            &&& m.programs[i] is Fine <==> (there matches Some(seen) && seen.sha256@ == hash)
            &&& there is None ==> found.contains(finding("action_program_missing"@, at))
            &&& (there matches Some(seen) && seen.sha256@ != hash) ==> found.contains(
                finding("action_program_modified"@, at),
            )
        }),
{
    let m = verify::marks(owned, root, state, machine)->Ok_0;
    let steps = owned.actions@.map_values(checks::program_mark(state, machine));
    lists::lemma_all_gives(steps);
    assert(steps[i] == Ok::<Mark, ErrorView>(m.programs[i]));
    if m.programs[i] is Wrong {
        lemma_marks_are_reported(m.programs, i);
        lemma_part_of_all(m, owned, machine, m.programs[i]->Wrong_0);
    }
}

/// A registration whose key is gone is reported.
pub proof fn lemma_a_lost_registration_is_reported(m: Marks, owned: Owned, machine: Machine)
    requires
        owned.registration_key is Some,
        machine::parsed_key(owned.registration_key->Some_0@) is Some,
        !machine.has_key(machine::parsed_key(owned.registration_key->Some_0@)->Some_0),
    ensures
        verify::all_wrong(m, owned, machine).contains(
            finding("registration_missing"@, owned.registration_key->Some_0@),
        ),
{
    let f = finding("registration_missing"@, owned.registration_key->Some_0@);
    assert(verify::unregistered(owned, machine)[0] == f);
    lemma_part_of_all(m, owned, machine, f);
}

/// What a check says of a machine: nothing is installed where nothing is
/// recorded, an open transaction is told as such, a database that cannot be
/// read is a failure, and otherwise the check is fine exactly when nothing is
/// wrong.
pub proof fn lemma_what_a_check_says(
    r: Result<VerifyReport, Error>,
    m: Metadata,
    roots: RootsView,
    database: Result<Option<State>, Error>,
    machine: Machine,
)
    requires
        verify::is_report(r, m, roots, database, machine),
    ensures
        database matches Ok(None) ==> r is Ok && r->Ok_0.status@ == "not_installed"@
            && r->Ok_0.findings@.len() == 0,
        (database matches Ok(Some(state)) && state.open is Some) ==> r is Ok && r->Ok_0.status@
            == "transaction_open"@ && r->Ok_0.transaction is Some && r->Ok_0.transaction->Some_0.id@
            == database->Ok_0->Some_0.open->Some_0.0.id@,
        (database matches Ok(Some(state)) && state.open is None && state.installation is None) ==> r
            is Ok && r->Ok_0.status@ == "not_installed"@,
        (database matches Ok(Some(state)) && state.open is None && state.installation is Some) && r
            is Ok ==> {
            let state = database->Ok_0->Some_0;
            let row = state.installation->Some_0;
            let marks = verify::marks(state.owned, row.install_root@, roots.state_dir, machine);
            &&& marks is Ok
            &&& text::views(r->Ok_0.findings@) == verify::all_wrong(
                marks->Ok_0,
                state.owned,
                machine,
            )
            &&& r->Ok_0.findings@.len() == 0 ==> r->Ok_0.status@ == "ok"@
            &&& r->Ok_0.findings@.len() > 0 ==> r->Ok_0.status@ == "failed"@
            &&& r->Ok_0.installation is Some
            &&& r->Ok_0.installation->Some_0.version@ == row.version@
            &&& r->Ok_0.installation->Some_0.scope@ == row.scope@
            &&& r->Ok_0.installation->Some_0.install_root@ == row.install_root@
            &&& r->Ok_0.installation->Some_0.state_db@ == roots.state_db
            &&& r->Ok_0.counts.files_checked == checks::checked(marks->Ok_0.files)
            &&& r->Ok_0.counts.files_ok == checks::fine(marks->Ok_0.files)
            &&& r->Ok_0.counts.directories_checked == checks::checked(marks->Ok_0.directories)
            &&& r->Ok_0.counts.shortcuts_checked == checks::checked(marks->Ok_0.shortcuts)
            &&& r->Ok_0.counts.path_entries_ok == checks::fine(marks->Ok_0.entries)
            &&& r->Ok_0.counts.firewall_rules_ok == checks::fine(marks->Ok_0.rules)
        },
        (database matches Err(e) && (e@.code == "database_busy"@ || e@.code == "state_unreadable"@))
            ==> r is Ok && r->Ok_0.status@ == "failed"@ && r->Ok_0.findings@.len() == 1,
        (database matches Err(e) && e@.code != "database_busy"@ && e@.code != "state_unreadable"@)
            ==> r is Err && r->Err_0@ == database->Err_0@,
{
    if database is Err && r is Ok {
        assert(text::views(r->Ok_0.findings@).len() == r->Ok_0.findings@.len());
    }
}

/// Values of the registration and of the product are counted apart, and each
/// once.
pub proof fn lemma_values_are_counted_apart(marks: Seq<Mark>, kinds: Seq<bool>)
    requires
        marks.len() == kinds.len(),
    ensures
        checks::checked(checks::of_kind(marks, kinds, true)) + checks::checked(
            checks::of_kind(marks, kinds, false),
        ) == checks::checked(marks),
        checks::fine(checks::of_kind(marks, kinds, true)) + checks::fine(
            checks::of_kind(marks, kinds, false),
        ) == checks::fine(marks),
    decreases marks.len(),
{
    if marks.len() > 0 {
        lemma_values_are_counted_apart(marks.drop_last(), kinds.drop_last());
        let a = checks::of_kind(marks.drop_last(), kinds.drop_last(), kinds.last());
        assert(a.push(marks.last()).drop_last() =~= a);
    }
}

/// An integration is told as it is on the machine: how many values it has, how
/// many of them are there as they should be, and how many are owned.
pub proof fn lemma_how_an_integration_is_told(i: IntegrationView, machine: Machine, owned: Owned)
    ensures
        ({
            let s = verify::status_of(machine, owned)(i);
            &&& s.kind == i.kind
            &&& s.id == i.id
            &&& s.enabled == i.enabled
            &&& s.values_total == i.values.len()
            &&& s.values_present <= s.values_total
            &&& s.values_owned <= s.values_total
            &&& (forall|k: int|
                0 <= k < i.values.len() ==> machine.value(
                    (#[trigger] i.values[k]).key,
                    i.values[k].name,
                ) == Some(i.values[k].data)) ==> s.values_present == s.values_total
            &&& (exists|k: int|
                0 <= k < i.values.len() && machine.value(
                    (#[trigger] i.values[k]).key,
                    i.values[k].name,
                ) != Some(i.values[k].data)) ==> s.values_present < s.values_total
        }),
{
    let p = integration::is_there(machine);
    let q = integration::is_owned(owned);
    lemma_filter_counts(i.values, p);
    lemma_filter_counts(i.values, q);
    if exists|k: int|
        0 <= k < i.values.len() && machine.value((#[trigger] i.values[k]).key, i.values[k].name)
            != Some(i.values[k].data) {
        let k = choose|k: int|
            0 <= k < i.values.len() && machine.value((#[trigger] i.values[k]).key, i.values[k].name)
                != Some(i.values[k].data);
        assert(!p(i.values[k]));
    }
}

proof fn lemma_filter_counts<T>(s: Seq<T>, p: spec_fn(T) -> bool)
    ensures
        s.filter(p).len() <= s.len(),
        s.filter(p).len() == s.len() <==> forall|k: int| 0 <= k < s.len() ==> p(#[trigger] s[k]),
    decreases s.len(),
{
    reveal(Seq::filter);
    if s.len() > 0 {
        let before = s.drop_last();
        let n = s.len() - 1;
        lemma_filter_counts(before, p);
        if s.filter(p).len() == s.len() {
            assert forall|k: int| 0 <= k < s.len() implies p(#[trigger] s[k]) by {
                if k < n {
                    assert(before[k] == s[k]);
                }
            }
        }
        if forall|k: int| 0 <= k < s.len() ==> p(#[trigger] s[k]) {
            assert forall|k: int| 0 <= k < before.len() implies p(#[trigger] before[k]) by {
                assert(before[k] == s[k]);
            }
            assert(p(s[n]));
        }
    }
}

/// What is listed of an installation is what it owns.
pub proof fn lemma_what_is_listed_is_owned(
    r: OwnedResources,
    owned: Owned,
    recorded: Seq<OptionEntry>,
    i: int,
)
    requires
        inspect::lists_owned(r, owned, recorded),
    ensures
        r.options@.len() == recorded.len(),
        r.registry_values@.len() == owned.registry_values@.len(),
        r.path_entries@.len() == owned.path_entries@.len(),
        r.shortcuts@.len() == owned.shortcuts@.len(),
        r.environment_variables@.len() == owned.environment_variables@.len(),
        r.firewall_rules@.len() == owned.firewall_rules@.len(),
        r.actions@.len() == owned.actions@.len(),
        0 <= i < owned.registry_values@.len() ==> r.registry_values@[i]@
            == owned.registry_values@[i].key@ + "\\"@ + owned.registry_values@[i].name@,
        0 <= i < owned.path_entries@.len() ==> r.path_entries@[i].entry@
            == owned.path_entries@[i].raw@ && r.path_entries@[i].pre_existed
            == owned.path_entries@[i].pre_existed,
        0 <= i < owned.shortcuts@.len() ==> r.shortcuts@[i]@ == owned.shortcuts@[i].path@,
        0 <= i < owned.environment_variables@.len() ==> r.environment_variables@[i].name@
            == owned.environment_variables@[i].name@,
        0 <= i < owned.firewall_rules@.len() ==> r.firewall_rules@[i]@
            == owned.firewall_rules@[i].name@,
        0 <= i < owned.actions@.len() ==> r.actions@[i].name@ == owned.actions@[i].name@,
        0 <= i < recorded.len() ==> r.options@[i].name@ == recorded[i].name@ && r.options@[i].value
            == recorded[i].value,
{
    assert(text::views(r.registry_values@).len() == r.registry_values@.len());
    assert(text::views(r.shortcuts@).len() == r.shortcuts@.len());
    assert(text::views(r.firewall_rules@).len() == r.firewall_rules@.len());
    if 0 <= i < owned.registry_values@.len() {
        assert(text::views(r.registry_values@)[i] == r.registry_values@[i]@);
    }
    if 0 <= i < owned.shortcuts@.len() {
        assert(text::views(r.shortcuts@)[i] == r.shortcuts@[i]@);
    }
    if 0 <= i < owned.firewall_rules@.len() {
        assert(text::views(r.firewall_rules@)[i] == r.firewall_rules@[i]@);
    }
}

/// What is told of a package is what it declares.
pub proof fn lemma_what_is_told_of_a_package(i: PackageInfo, p: Package, k: int)
    requires
        inspect::tells_package(i, p),
    ensures
        i.id@ == p.metadata.package.id@,
        i.name@ == p.metadata.package.name@,
        i.version@ == p.metadata.package.version@,
        i.publisher@ == p.metadata.package.publisher@,
        i.metadata_sha256@ == p.metadata_sha256@,
        i.options@.len() == p.metadata.options@.len(),
        i.actions@.len() == p.metadata.actions@.len(),
        i.scopes@.len() == p.metadata.install.scopes@.len(),
        i.launch is Some <==> p.metadata.launch is Some,
        0 <= k < i.scopes@.len() ==> i.scopes@[k]@ == p.metadata.install.scopes@[k].name(),
        0 <= k < i.options@.len() ==> i.options@[k].name@ == text::lower(
            p.metadata.options@[k].name@,
        ),
        0 <= k < i.actions@.len() ==> {
            let a = p.metadata.actions@[k];
            &&& i.actions@[k].name@ == a.name@
            &&& i.actions@[k].phase@ == a.phase.name()
            &&& text::views(i.actions@[k].arguments@) == text::views(a.arguments@)
            &&& i.actions@[k].timeout_seconds == a.timeout_seconds
            &&& i.actions@[k].reboot_codes@ == a.reboot_codes@
        },
{
    if 0 <= k < i.options@.len() {
        assert(i.options@[k].tells(p.metadata.options@[k]));
    }
    if 0 <= k < i.actions@.len() {
        assert(i.actions@[k].tells(p.metadata.actions@[k]));
    }
}

}
