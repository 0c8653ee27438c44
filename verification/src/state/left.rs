//! What an installation owns once its operations are done.

use vstd::prelude::*;

use crate::machine::Machine;
use crate::plan::operation::OpView;
use crate::resource::path;
use crate::state::installation::{
    Owned, OwnedAction, OwnedDirectory, OwnedEnvironmentVariable, OwnedFile, OwnedFirewallRule, OwnedPathEntry,
    OwnedRegistryKey, OwnedRegistryValue, OwnedShortcut,
};
use crate::state::journal::{OpKind, OpState, OperationRow};
use crate::state::ownership;
use crate::state::ownership::Table;
use crate::text;

verus! {

/// The last operation on a thing decides on it, and is not passed over.
proof fn lemma_kept_holds(ops: Seq<OperationRow>, table: Table, machine: Machine, i: int)
    requires
        0 <= i < ops.len(),
        ownership::table_for(ops[i].kind) == table,
        !ownership::is_replaced(ops, i, machine),
    ensures
        ownership::kept(ops, table, machine).contains(ops[i]),
    decreases ops.len(),
{
    let rest = ops.drop_first();
    let tail = ownership::kept(rest, table, machine);
    let whole = ownership::kept(ops, table, machine);
    if i == 0 {
        assert(whole[0] == ops[0]);
    } else {
        assert(rest[i - 1] == ops[i]);
        assert(!ownership::is_replaced(rest, i - 1, machine)) by {
            if ownership::is_replaced(rest, i - 1, machine) {
                let j = choose|j: int|
                    i - 1 < j < rest.len() && ownership::table_for((#[trigger] rest[j]).kind)
                        == ownership::table_for(rest[i - 1].kind) && ownership::identity(
                        rest[j],
                        machine,
                    ) == ownership::identity(rest[i - 1], machine);
                assert(ops[j + 1] == rest[j]);
            }
        }
        lemma_kept_holds(rest, table, machine, i - 1);
        let k = choose|k: int| 0 <= k < tail.len() && tail[k] == ops[i];
        if whole.len() == tail.len() {
            assert(whole == tail);
        } else {
            assert(whole[k + 1] == ops[i]);
        }
    }
}

/// Only operations on things of the table are kept for it.
proof fn lemma_kept_from(ops: Seq<OperationRow>, table: Table, machine: Machine, k: int)
    requires
        0 <= k < ownership::kept(ops, table, machine).len(),
    ensures
        ops.contains(ownership::kept(ops, table, machine)[k]),
        ownership::table_for(ownership::kept(ops, table, machine)[k].kind) == table,
    decreases ops.len(),
{
    if ops.len() > 0 {
        let rest = ops.drop_first();
        let tail = ownership::kept(rest, table, machine);
        let whole = ownership::kept(ops, table, machine);
        let own = whole.len() - tail.len();
        if own == 1 && k == 0 {
            assert(whole[0] == ops[0]);
        } else {
            lemma_kept_from(rest, table, machine, k - own);
            assert(whole[k] == tail[k - own]);
            let i = choose|i: int| 0 <= i < rest.len() && rest[i] == tail[k - own];
            assert(ops[i + 1] == whole[k]);
        }
    }
}

/// Whether a row remembers what was there before: what the operation is to
/// restore, where it says so, and otherwise what it found.
pub open spec fn remembers(
    pre_existed: bool,
    kind: Option<String>,
    data: Option<String>,
    op: OperationRow,
) -> bool {
    match op.restore_kind {
        Some(k) => if k@ == "absent"@ {
            !pre_existed && kind is None && data is None
        } else {
            pre_existed && text::option_view(kind) == Some(k@) && text::option_view(data)
                == text::option_view(op.restore_data)
        },
        None => (pre_existed <==> op.previous_existed == Some(true)) && text::option_view(kind)
            == text::option_view(op.previous_kind) && text::option_view(data) == text::option_view(
            op.previous_data,
        ),
    }
}

/// What the row of a file says after an operation.
pub open spec fn file_after(row: OwnedFile, op: OperationRow) -> bool {
    &&& op.kind == OpKind::InstallFile || op.kind == OpKind::KeepFile
    &&& row.path@ == op.target@
    &&& op.applied_sha256 is Some ==> row.sha256@ == op.applied_sha256->Some_0@
    &&& op.expected_size is Some ==> row.size == op.expected_size->Some_0
    &&& row.modified == op.applied_modified
}

/// A file that is put in place or kept is owned, with its hash, size and
/// time.
pub proof fn lemma_which_files_are_owned(
    o: Owned,
    ops: Seq<OperationRow>,
    machine: Machine,
    i: int,
)
    requires
        ownership::is_left_by(o, ops, machine),
    ensures
        0 <= i < ops.len() && (ops[i].kind == OpKind::InstallFile || ops[i].kind
            == OpKind::KeepFile) && !ownership::is_replaced(ops, i, machine) ==> exists|k: int|
            0 <= k < o.files@.len() && file_after(#[trigger] o.files@[k], ops[i]),
        forall|k: int|
            0 <= k < o.files@.len() ==> exists|j: int|
                0 <= j < ops.len() && file_after(#[trigger] o.files@[k], #[trigger] ops[j]),
{
    let kept = ownership::kept(ops, Table::File, machine);
    if 0 <= i < ops.len() && (ops[i].kind == OpKind::InstallFile || ops[i].kind
        == OpKind::KeepFile) && !ownership::is_replaced(ops, i, machine) {
        lemma_kept_holds(ops, Table::File, machine, i);
        let k = choose|k: int| 0 <= k < kept.len() && kept[k] == ops[i];
        assert(ownership::owns_file(o.files@[k], kept[k]));
        assert(file_after(o.files@[k], ops[i]));
    }
    assert forall|k: int| 0 <= k < o.files@.len() implies exists|j: int|
        0 <= j < ops.len() && file_after(#[trigger] o.files@[k], #[trigger] ops[j]) by {
        lemma_kept_from(ops, Table::File, machine, k);
        let j = choose|j: int| 0 <= j < ops.len() && ops[j] == kept[k];
        assert(ownership::owns_file(o.files@[k], kept[k]));
        assert(file_after(o.files@[k], ops[j]));
    }
}

/// What the row of a directory says after an operation.
pub open spec fn directory_after(row: OwnedDirectory, op: OperationRow) -> bool {
    &&& op.kind == OpKind::CreateDirectory || op.kind == OpKind::KeepDirectory
    &&& row.path@ == op.target@
    &&& row.created <==> op.previous_existed == Some(false)
}

/// A directory that is created or kept is owned, and is the package's to
/// remove exactly where it was not there before.
pub proof fn lemma_which_directories_are_owned(
    o: Owned,
    ops: Seq<OperationRow>,
    machine: Machine,
    i: int,
)
    requires
        ownership::is_left_by(o, ops, machine),
    ensures
        0 <= i < ops.len() && (ops[i].kind == OpKind::CreateDirectory || ops[i].kind
            == OpKind::KeepDirectory) && !ownership::is_replaced(ops, i, machine) ==> exists|k: int|
            0 <= k < o.directories@.len() && directory_after(#[trigger] o.directories@[k], ops[i]),
        forall|k: int|
            0 <= k < o.directories@.len() ==> exists|j: int|
                0 <= j < ops.len() && directory_after(#[trigger] o.directories@[k], #[trigger] ops[j]),
{
    let kept = ownership::kept(ops, Table::Directory, machine);
    if 0 <= i < ops.len() && (ops[i].kind == OpKind::CreateDirectory || ops[i].kind
        == OpKind::KeepDirectory) && !ownership::is_replaced(ops, i, machine) {
        lemma_kept_holds(ops, Table::Directory, machine, i);
        let k = choose|k: int| 0 <= k < kept.len() && kept[k] == ops[i];
        assert(ownership::owns_directory(o.directories@[k], kept[k]));
        assert(directory_after(o.directories@[k], ops[i]));
    }
    assert forall|k: int| 0 <= k < o.directories@.len() implies exists|j: int|
        0 <= j < ops.len() && directory_after(#[trigger] o.directories@[k], #[trigger] ops[j]) by {
        lemma_kept_from(ops, Table::Directory, machine, k);
        let j = choose|j: int| 0 <= j < ops.len() && ops[j] == kept[k];
        assert(ownership::owns_directory(o.directories@[k], kept[k]));
        assert(directory_after(o.directories@[k], ops[j]));
    }
}

/// What the row of a key says after an operation.
pub open spec fn key_after(row: OwnedRegistryKey, op: OperationRow) -> bool {
    &&& op.kind == OpKind::CreateRegistryKey || op.kind == OpKind::KeepRegistryKey
    &&& row.key@ == op.target@
    &&& row.created <==> op.previous_existed == Some(false)
}

/// A registry key that is created or kept is owned, and is the package's to
/// remove exactly where it was not there before.
pub proof fn lemma_which_registry_keys_are_owned(
    o: Owned,
    ops: Seq<OperationRow>,
    machine: Machine,
    i: int,
)
    requires
        ownership::is_left_by(o, ops, machine),
    ensures
        0 <= i < ops.len() && (ops[i].kind == OpKind::CreateRegistryKey || ops[i].kind
            == OpKind::KeepRegistryKey) && !ownership::is_replaced(ops, i, machine) ==> exists|k: int|
            0 <= k < o.registry_keys@.len() && key_after(#[trigger] o.registry_keys@[k], ops[i]),
        forall|k: int|
            0 <= k < o.registry_keys@.len() ==> exists|j: int|
                0 <= j < ops.len() && key_after(#[trigger] o.registry_keys@[k], #[trigger] ops[j]),
{
    let kept = ownership::kept(ops, Table::RegistryKey, machine);
    if 0 <= i < ops.len() && (ops[i].kind == OpKind::CreateRegistryKey || ops[i].kind
        == OpKind::KeepRegistryKey) && !ownership::is_replaced(ops, i, machine) {
        lemma_kept_holds(ops, Table::RegistryKey, machine, i);
        let k = choose|k: int| 0 <= k < kept.len() && kept[k] == ops[i];
        assert(ownership::owns_key(o.registry_keys@[k], kept[k]));
        assert(key_after(o.registry_keys@[k], ops[i]));
    }
    assert forall|k: int| 0 <= k < o.registry_keys@.len() implies exists|j: int|
        0 <= j < ops.len() && key_after(#[trigger] o.registry_keys@[k], #[trigger] ops[j]) by {
        lemma_kept_from(ops, Table::RegistryKey, machine, k);
        let j = choose|j: int| 0 <= j < ops.len() && ops[j] == kept[k];
        assert(ownership::owns_key(o.registry_keys@[k], kept[k]));
        assert(key_after(o.registry_keys@[k], ops[j]));
    }
}

/// What the row of a value says after an operation.
pub open spec fn value_after(row: OwnedRegistryValue, op: OperationRow) -> bool {
    &&& op.kind == OpKind::SetRegistryValue || op.kind == OpKind::KeepRegistryValue
    &&& row.key@ == op.target@
    &&& op.value_name is Some ==> row.name@ == op.value_name->Some_0@
    &&& op.value_kind is Some ==> row.kind@ == op.value_kind->Some_0@
    &&& op.value_data is Some ==> row.data@ == op.value_data->Some_0@
    &&& remembers(row.pre_existed, row.previous_kind, row.previous_data, op)
}

/// A registry value that is set or kept is owned, with what was written and
/// what was there before.
pub proof fn lemma_which_registry_values_are_owned(
    o: Owned,
    ops: Seq<OperationRow>,
    machine: Machine,
    i: int,
)
    requires
        ownership::is_left_by(o, ops, machine),
    ensures
        0 <= i < ops.len() && (ops[i].kind == OpKind::SetRegistryValue || ops[i].kind
            == OpKind::KeepRegistryValue) && !ownership::is_replaced(ops, i, machine) ==> exists|k: int|
            0 <= k < o.registry_values@.len() && value_after(#[trigger] o.registry_values@[k], ops[i]),
        forall|k: int|
            0 <= k < o.registry_values@.len() ==> exists|j: int|
                0 <= j < ops.len() && value_after(#[trigger] o.registry_values@[k], #[trigger] ops[j]),
{
    let kept = ownership::kept(ops, Table::RegistryValue, machine);
    if 0 <= i < ops.len() && (ops[i].kind == OpKind::SetRegistryValue || ops[i].kind
        == OpKind::KeepRegistryValue) && !ownership::is_replaced(ops, i, machine) {
        lemma_kept_holds(ops, Table::RegistryValue, machine, i);
        let k = choose|k: int| 0 <= k < kept.len() && kept[k] == ops[i];
        assert(ownership::owns_value(o.registry_values@[k], kept[k]));
        assert(value_after(o.registry_values@[k], ops[i]));
    }
    assert forall|k: int| 0 <= k < o.registry_values@.len() implies exists|j: int|
        0 <= j < ops.len() && value_after(#[trigger] o.registry_values@[k], #[trigger] ops[j]) by {
        lemma_kept_from(ops, Table::RegistryValue, machine, k);
        let j = choose|j: int| 0 <= j < ops.len() && ops[j] == kept[k];
        assert(ownership::owns_value(o.registry_values@[k], kept[k]));
        assert(value_after(o.registry_values@[k], ops[j]));
    }
}

/// What the row of a entry says after an operation.
pub open spec fn entry_after(row: OwnedPathEntry, op: OperationRow, machine: Machine) -> bool {
    &&& op.kind == OpKind::AddPathEntry || op.kind == OpKind::KeepPathEntry
    &&& row.hive_key@ == op.target@
    &&& op.value_data is Some ==> row.raw@ == op.value_data->Some_0@ && row.normalized@ == path::normal(op.value_data->Some_0@, machine)
    &&& row.added <==> !(op.kind == OpKind::KeepPathEntry && op.previous_existed == Some(true))
    &&& row.pre_existed <==> !row.added
}

/// A PATH entry that is added or kept is owned, and is the package's to
/// remove unless it was there before.
pub proof fn lemma_which_path_entries_are_owned(
    o: Owned,
    ops: Seq<OperationRow>,
    machine: Machine,
    i: int,
)
    requires
        ownership::is_left_by(o, ops, machine),
    ensures
        0 <= i < ops.len() && (ops[i].kind == OpKind::AddPathEntry || ops[i].kind
            == OpKind::KeepPathEntry) && !ownership::is_replaced(ops, i, machine) ==> exists|k: int|
            0 <= k < o.path_entries@.len() && entry_after(#[trigger] o.path_entries@[k], ops[i], machine),
        forall|k: int|
            0 <= k < o.path_entries@.len() ==> exists|j: int|
                0 <= j < ops.len() && entry_after(#[trigger] o.path_entries@[k], #[trigger] ops[j], machine),
{
    let kept = ownership::kept(ops, Table::PathEntry, machine);
    if 0 <= i < ops.len() && (ops[i].kind == OpKind::AddPathEntry || ops[i].kind
        == OpKind::KeepPathEntry) && !ownership::is_replaced(ops, i, machine) {
        lemma_kept_holds(ops, Table::PathEntry, machine, i);
        let k = choose|k: int| 0 <= k < kept.len() && kept[k] == ops[i];
        assert(ownership::owns_entry(o.path_entries@[k], kept[k], machine));
        assert(entry_after(o.path_entries@[k], ops[i], machine));
    }
    assert forall|k: int| 0 <= k < o.path_entries@.len() implies exists|j: int|
        0 <= j < ops.len() && entry_after(#[trigger] o.path_entries@[k], #[trigger] ops[j], machine) by {
        lemma_kept_from(ops, Table::PathEntry, machine, k);
        let j = choose|j: int| 0 <= j < ops.len() && ops[j] == kept[k];
        assert(ownership::owns_entry(o.path_entries@[k], kept[k], machine));
        assert(entry_after(o.path_entries@[k], ops[j], machine));
    }
}

/// What the row of a shortcut says after an operation.
pub open spec fn shortcut_after(row: OwnedShortcut, op: OperationRow) -> bool {
    &&& op.kind == OpKind::CreateShortcut || op.kind == OpKind::KeepShortcut
    &&& row.path@ == op.target@
    &&& op.value_data is Some ==> row.target@ == op.value_data->Some_0@
}

/// A shortcut that is created or kept is owned, with what it leads to.
pub proof fn lemma_which_shortcuts_are_owned(
    o: Owned,
    ops: Seq<OperationRow>,
    machine: Machine,
    i: int,
)
    requires
        ownership::is_left_by(o, ops, machine),
    ensures
        0 <= i < ops.len() && (ops[i].kind == OpKind::CreateShortcut || ops[i].kind
            == OpKind::KeepShortcut) && !ownership::is_replaced(ops, i, machine) ==> exists|k: int|
            0 <= k < o.shortcuts@.len() && shortcut_after(#[trigger] o.shortcuts@[k], ops[i]),
        forall|k: int|
            0 <= k < o.shortcuts@.len() ==> exists|j: int|
                0 <= j < ops.len() && shortcut_after(#[trigger] o.shortcuts@[k], #[trigger] ops[j]),
{
    let kept = ownership::kept(ops, Table::Shortcut, machine);
    if 0 <= i < ops.len() && (ops[i].kind == OpKind::CreateShortcut || ops[i].kind
        == OpKind::KeepShortcut) && !ownership::is_replaced(ops, i, machine) {
        lemma_kept_holds(ops, Table::Shortcut, machine, i);
        let k = choose|k: int| 0 <= k < kept.len() && kept[k] == ops[i];
        assert(ownership::owns_shortcut(o.shortcuts@[k], kept[k]));
        assert(shortcut_after(o.shortcuts@[k], ops[i]));
    }
    assert forall|k: int| 0 <= k < o.shortcuts@.len() implies exists|j: int|
        0 <= j < ops.len() && shortcut_after(#[trigger] o.shortcuts@[k], #[trigger] ops[j]) by {
        lemma_kept_from(ops, Table::Shortcut, machine, k);
        let j = choose|j: int| 0 <= j < ops.len() && ops[j] == kept[k];
        assert(ownership::owns_shortcut(o.shortcuts@[k], kept[k]));
        assert(shortcut_after(o.shortcuts@[k], ops[j]));
    }
}

/// What the row of a variable says after an operation.
pub open spec fn variable_after(row: OwnedEnvironmentVariable, op: OperationRow) -> bool {
    &&& op.kind == OpKind::SetEnvironmentVariable || op.kind == OpKind::KeepEnvironmentVariable
    &&& row.hive_key@ == op.target@
    &&& op.value_name is Some ==> row.name@ == op.value_name->Some_0@
    &&& op.value_kind is Some ==> row.kind@ == op.value_kind->Some_0@
    &&& op.value_data is Some ==> row.data@ == op.value_data->Some_0@
    &&& remembers(row.pre_existed, row.previous_kind, row.previous_data, op)
}

/// An environment variable that is set or kept is owned, with what was
/// written and what was there before.
pub proof fn lemma_which_environment_variables_are_owned(
    o: Owned,
    ops: Seq<OperationRow>,
    machine: Machine,
    i: int,
)
    requires
        ownership::is_left_by(o, ops, machine),
    ensures
        0 <= i < ops.len() && (ops[i].kind == OpKind::SetEnvironmentVariable || ops[i].kind
            == OpKind::KeepEnvironmentVariable) && !ownership::is_replaced(ops, i, machine) ==> exists|k: int|
            0 <= k < o.environment_variables@.len() && variable_after(#[trigger] o.environment_variables@[k], ops[i]),
        forall|k: int|
            0 <= k < o.environment_variables@.len() ==> exists|j: int|
                0 <= j < ops.len() && variable_after(#[trigger] o.environment_variables@[k], #[trigger] ops[j]),
{
    let kept = ownership::kept(ops, Table::EnvironmentVariable, machine);
    if 0 <= i < ops.len() && (ops[i].kind == OpKind::SetEnvironmentVariable || ops[i].kind
        == OpKind::KeepEnvironmentVariable) && !ownership::is_replaced(ops, i, machine) {
        lemma_kept_holds(ops, Table::EnvironmentVariable, machine, i);
        let k = choose|k: int| 0 <= k < kept.len() && kept[k] == ops[i];
        assert(ownership::owns_variable(o.environment_variables@[k], kept[k]));
        assert(variable_after(o.environment_variables@[k], ops[i]));
    }
    assert forall|k: int| 0 <= k < o.environment_variables@.len() implies exists|j: int|
        0 <= j < ops.len() && variable_after(#[trigger] o.environment_variables@[k], #[trigger] ops[j]) by {
        lemma_kept_from(ops, Table::EnvironmentVariable, machine, k);
        let j = choose|j: int| 0 <= j < ops.len() && ops[j] == kept[k];
        assert(ownership::owns_variable(o.environment_variables@[k], kept[k]));
        assert(variable_after(o.environment_variables@[k], ops[j]));
    }
}

/// What the row of a rule says after an operation.
pub open spec fn rule_after(row: OwnedFirewallRule, op: OperationRow) -> bool {
    &&& op.kind == OpKind::CreateFirewallRule || op.kind == OpKind::KeepFirewallRule
    &&& row.name@ == op.target@
    &&& op.value_data is Some ==> row.rule@ == op.value_data->Some_0@
}

/// A firewall rule that is created or kept is owned, with what it says.
pub proof fn lemma_which_firewall_rules_are_owned(
    o: Owned,
    ops: Seq<OperationRow>,
    machine: Machine,
    i: int,
)
    requires
        ownership::is_left_by(o, ops, machine),
    ensures
        0 <= i < ops.len() && (ops[i].kind == OpKind::CreateFirewallRule || ops[i].kind
            == OpKind::KeepFirewallRule) && !ownership::is_replaced(ops, i, machine) ==> exists|k: int|
            0 <= k < o.firewall_rules@.len() && rule_after(#[trigger] o.firewall_rules@[k], ops[i]),
        forall|k: int|
            0 <= k < o.firewall_rules@.len() ==> exists|j: int|
                0 <= j < ops.len() && rule_after(#[trigger] o.firewall_rules@[k], #[trigger] ops[j]),
{
    let kept = ownership::kept(ops, Table::FirewallRule, machine);
    if 0 <= i < ops.len() && (ops[i].kind == OpKind::CreateFirewallRule || ops[i].kind
        == OpKind::KeepFirewallRule) && !ownership::is_replaced(ops, i, machine) {
        lemma_kept_holds(ops, Table::FirewallRule, machine, i);
        let k = choose|k: int| 0 <= k < kept.len() && kept[k] == ops[i];
        assert(ownership::owns_rule(o.firewall_rules@[k], kept[k]));
        assert(rule_after(o.firewall_rules@[k], ops[i]));
    }
    assert forall|k: int| 0 <= k < o.firewall_rules@.len() implies exists|j: int|
        0 <= j < ops.len() && rule_after(#[trigger] o.firewall_rules@[k], #[trigger] ops[j]) by {
        lemma_kept_from(ops, Table::FirewallRule, machine, k);
        let j = choose|j: int| 0 <= j < ops.len() && ops[j] == kept[k];
        assert(ownership::owns_rule(o.firewall_rules@[k], kept[k]));
        assert(rule_after(o.firewall_rules@[k], ops[j]));
    }
}

/// A later operation stands for an earlier one exactly when both are on the
/// same thing: the same file or directory, or the same key, name, PATH entry,
/// shortcut or rule without regard to case.
pub proof fn lemma_which_operations_are_on_the_same_thing(
    a: OperationRow,
    b: OperationRow,
    machine: Machine,
)
    requires
        ownership::table_for(a.kind) == ownership::table_for(b.kind),
    ensures
        ({
            let same = ownership::identity(a, machine) == ownership::identity(b, machine);
            let t = ownership::table_for(a.kind);
            &&& t == Table::File || t == Table::Directory ==> (same <==> a.target@ == b.target@)
            &&& t == Table::RegistryKey || t == Table::Shortcut || t == Table::FirewallRule ==> (
            same <==> text::lower(a.target@) == text::lower(b.target@))
            &&& (t == Table::RegistryValue || t == Table::EnvironmentVariable) && a.value_name
                is Some && b.value_name is Some ==> (same <==> text::lower(a.target@)
                == text::lower(b.target@) && text::lower(a.value_name->Some_0@) == text::lower(
                b.value_name->Some_0@,
            ))
            &&& t == Table::PathEntry && a.value_data is Some && b.value_data is Some ==> (same
                <==> text::lower(a.target@) == text::lower(b.target@) && path::normal(
                a.value_data->Some_0@,
                machine,
            ) == path::normal(b.value_data->Some_0@, machine))
        }),
{
}

/// A planned operation is written to the journal as it was planned, in its
/// place, done already where it only keeps something.
pub proof fn lemma_an_operation_is_journaled_as_planned(
    row: OperationRow,
    op: OpView,
    transaction: Seq<char>,
    at: int,
)
    requires
        ownership::journaled(row, op, transaction, at),
    ensures
        row.transaction_id@ == transaction,
        row.sequence == at + 1,
        row.kind == op.kind,
        row.target@ == op.target,
        row.state == OpState::Applied <==> op.kind.keeps(),
        row.state == OpState::Planned <==> !op.kind.keeps(),
        text::option_view(row.payload_entry) == op.payload_entry,
        row.expected_size == op.expected_size,
        text::option_view(row.applied_sha256) == op.applied_sha256,
        row.applied_modified == op.applied_modified,
        row.previous_existed == op.previous_existed,
        text::option_view(row.value_name) == op.value_name,
        text::option_view(row.value_kind) == op.value_kind,
        text::option_view(row.value_data) == op.value_data,
        text::option_view(row.restore_kind) == op.restore_kind,
        text::option_view(row.restore_data) == op.restore_data,
        text::option_view(row.link_arguments) == op.link_arguments,
        text::option_view(row.link_description) == op.link_description,
        text::option_view(row.link_icon) == op.link_icon,
        text::option_view(row.link_app_user_model_id) == op.link_app_user_model_id,
        text::option_view(row.link_working_directory) == op.link_working_directory,
{
}

/// The programs of every record are among those that are kept.
pub proof fn lemma_every_program_is_kept(records: Seq<OwnedAction>, i: int)
    requires
        ownership::program_hashes(records) is Ok,
        0 <= i < records.len(),
    ensures
        ownership::kept_by(records[i]) is Ok,
        forall|k: int|
            0 <= k < ownership::kept_by(records[i])->Ok_0.len()
                ==> ownership::program_hashes(records)->Ok_0.contains(
                #[trigger] ownership::kept_by(records[i])->Ok_0[k],
            ),
        records[i].phase@ != "quiesce"@ && records[i].artifact_sha256 is Some
            ==> ownership::program_hashes(records)->Ok_0.contains(
            text::lower(records[i].artifact_sha256->Some_0@),
        ),
    decreases records.len(),
{
    let before = records.drop_last();
    let a = ownership::program_hashes(before)->Ok_0;
    let more = ownership::kept_by(records.last())->Ok_0;
    lemma_joined_holds(a, more);
    if i < before.len() {
        assert(before[i] == records[i]);
        lemma_every_program_is_kept(before, i);
    }
    if records[i].phase@ != "quiesce"@ && records[i].artifact_sha256 is Some {
        assert(ownership::kept_by(records[i])->Ok_0[0] == text::lower(
            records[i].artifact_sha256->Some_0@,
        ));
    }
}

proof fn lemma_joined_holds(before: Seq<Seq<char>>, more: Seq<Seq<char>>)
    ensures
        forall|x: Seq<char>|
            before.contains(x) || more.contains(x) ==> #[trigger] ownership::joined(
                before,
                more,
            ).contains(x),
    decreases more.len(),
{
    if more.len() > 0 {
        let less = more.drop_last();
        lemma_joined_holds(before, less);
        let init = ownership::joined(before, less);
        let whole = ownership::joined(before, more);
        assert forall|x: Seq<char>|
            before.contains(x) || more.contains(x) implies #[trigger] whole.contains(x) by {
            if more.contains(x) {
                let i = choose|i: int| 0 <= i < more.len() && more[i] == x;
                if i < less.len() {
                    assert(less[i] == x);
                    assert(less.contains(x));
                }
            }
            if init.contains(x) {
                let k = choose|k: int| 0 <= k < init.len() && init[k] == x;
                assert(whole[k] == x);
            } else {
                assert(whole[whole.len() - 1] == x);
            }
        }
    }
}

}
