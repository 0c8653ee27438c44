//! What a journal becomes: the rows a plan is journaled as, and the ownership
//! a commit makes of them.

use vstd::prelude::*;

use crate::action::definition;
use crate::error::{Error, ErrorView};
use crate::machine;
use crate::machine::{DataView, KeyView, Machine};
use crate::metadata::{OptionValue, OptionView};
use crate::plan::operation;
use crate::plan::operation::{OpView, PlannedOperation};
use crate::resource::environment;
use crate::resource::path;
use crate::resource::registry;
use crate::state::installation::{
    InstallationRow, Owned, OwnedAction, OwnedDirectory, OwnedEnvironmentVariable, OwnedFile,
    OwnedFirewallRule, OwnedPathEntry, OwnedRegistryKey, OwnedRegistryValue, OwnedShortcut,
};
use crate::state::journal;
use crate::state::journal::{OpKind, OpState, OperationRow, TransactionRow};
use crate::text;

verus! {

/// What a planned operation is journaled as.
pub open spec fn journaled(row: OperationRow, op: OpView, transaction: Seq<char>, at: int) -> bool {
    &&& row.transaction_id@ == transaction
    &&& row.sequence == at + 1
    &&& row.kind == op.kind
    &&& row.target@ == op.target
    &&& row.state == journal::first_state(op.kind)
    &&& row.previous_existed == op.previous_existed
    &&& row.previous_sha256 is None
    &&& row.backup_path is None
    &&& text::option_view(row.payload_entry) == op.payload_entry
    &&& row.expected_size == op.expected_size
    &&& text::option_view(row.applied_sha256) == op.applied_sha256
    &&& row.applied_modified == op.applied_modified
    &&& row.result_code is None
    &&& text::option_view(row.value_name) == op.value_name
    &&& text::option_view(row.value_kind) == op.value_kind
    &&& text::option_view(row.value_data) == op.value_data
    &&& row.previous_kind is None
    &&& row.previous_data is None
    &&& text::option_view(row.link_arguments) == op.link_arguments
    &&& text::option_view(row.link_description) == op.link_description
    &&& text::option_view(row.link_icon) == op.link_icon
    &&& text::option_view(row.restore_kind) == op.restore_kind
    &&& text::option_view(row.restore_data) == op.restore_data
    &&& text::option_view(row.link_app_user_model_id) == op.link_app_user_model_id
    &&& text::option_view(row.link_working_directory) == op.link_working_directory
}

fn row_of(op: &PlannedOperation, transaction: &str, at: usize) -> (r: OperationRow)
    requires
        at < i64::MAX,
    ensures
        journaled(r, op@, transaction@, at as int),
{
    let state = if op.kind.is_keep() {
        OpState::Applied
    } else {
        OpState::Planned
    };
    OperationRow {
        transaction_id: text::owned(transaction),
        sequence: at as i64 + 1,
        kind: op.kind,
        target: op.target.clone(),
        state,
        previous_existed: op.previous_existed,
        previous_sha256: None,
        backup_path: None,
        payload_entry: op.payload_entry.clone(),
        expected_size: op.expected_size,
        applied_sha256: op.applied_sha256.clone(),
        applied_modified: op.applied_modified,
        result_code: None,
        value_name: op.value_name.clone(),
        value_kind: op.value_kind.clone(),
        value_data: op.value_data.clone(),
        previous_kind: None,
        previous_data: None,
        link_arguments: op.link_arguments.clone(),
        link_description: op.link_description.clone(),
        link_icon: op.link_icon.clone(),
        restore_kind: op.restore_kind.clone(),
        restore_data: op.restore_data.clone(),
        link_app_user_model_id: op.link_app_user_model_id.clone(),
        link_working_directory: op.link_working_directory.clone(),
    }
}

/// The operations of a transaction as the journal starts with them: in the
/// order of the plan, mutating operations `planned`, keeps already `applied`
/// with the ownership they carry forward.
pub fn begin(transaction: &str, operations: &Vec<PlannedOperation>) -> (r: Vec<OperationRow>)
    requires
        operations@.len() < i64::MAX,
    ensures
        r@.len() == operations@.len(),
        forall|i: int|
            0 <= i < r@.len() ==> journaled(
                #[trigger] r@[i],
                operations@[i]@,
                transaction@,
                i,
            ),
{
    let mut rows: Vec<OperationRow> = Vec::new();
    let mut i: usize = 0;
    while i < operations.len()
        invariant
            i <= operations@.len() < i64::MAX,
            rows@.len() == i,
            forall|j: int|
                0 <= j < i ==> journaled(#[trigger] rows@[j], operations@[j]@, transaction@, j),
        decreases operations@.len() - i,
    {
        rows.push(row_of(&operations[i], transaction, i));
        i = i + 1;
    }
    rows
}

/// The text of a column, empty where it holds none.
pub open spec fn column(c: Option<String>) -> Seq<char> {
    match c {
        Some(s) => s@,
        None => Seq::empty(),
    }
}

fn column_of(c: &Option<String>) -> (r: String)
    ensures
        r@ == column(*c),
{
    match c {
        Some(s) => s.clone(),
        None => String::new(),
    }
}

/// What was there before a value was written, as the ownership record has it:
/// what the plan already knew, or what the prepare step found.
pub open spec fn before(op: OperationRow) -> (bool, Option<Seq<char>>, Option<Seq<char>>) {
    match op.restore_kind {
        Some(kind) => if kind@ == "absent"@ {
            (false, None, None)
        } else {
            (true, Some(kind@), text::option_view(op.restore_data))
        },
        None => (
            op.previous_existed == Some(true),
            text::option_view(op.previous_kind),
            text::option_view(op.previous_data),
        ),
    }
}

fn before_of(op: &OperationRow) -> (r: (bool, Option<String>, Option<String>))
    ensures
        (r.0, text::option_view(r.1), text::option_view(r.2)) == before(*op),
{
    match &op.restore_kind {
        Some(kind) => {
            if text::same(kind.as_str(), "absent") {
                (false, None, None)
            } else {
                (true, Some(kind.clone()), op.restore_data.clone())
            }
        },
        None => {
            let existed = match op.previous_existed {
                Some(existed) => existed,
                None => false,
            };
            (existed, op.previous_kind.clone(), op.previous_data.clone())
        },
    }
}

/// Whether a directory or a key is on record as created: what the journal
/// says of what existed, `true` where it says nothing.
pub open spec fn created(op: OperationRow) -> bool {
    op.previous_existed == Some(false)
}

/// Whether a row is the ownership of an installed or kept file.
pub open spec fn owns_file(row: OwnedFile, op: OperationRow) -> bool {
    &&& row.path@ == op.target@
    &&& row.sha256@ == column(op.applied_sha256)
    &&& row.size == match op.expected_size {
        Some(size) => size,
        None => 0,
    }
    &&& row.modified == op.applied_modified
}

/// Whether a row is the ownership of a created or kept directory.
pub open spec fn owns_directory(row: OwnedDirectory, op: OperationRow) -> bool {
    row.path@ == op.target@ && row.created == created(op)
}

/// Whether a row is the ownership of a created or kept key.
pub open spec fn owns_key(row: OwnedRegistryKey, op: OperationRow) -> bool {
    row.key@ == op.target@ && row.created == created(op)
}

/// Whether a row is the ownership of a set or kept value.
pub open spec fn owns_value(row: OwnedRegistryValue, op: OperationRow) -> bool {
    &&& row.key@ == op.target@
    &&& row.name@ == column(op.value_name)
    &&& row.kind@ == column(op.value_kind)
    &&& row.data@ == column(op.value_data)
    &&& (row.pre_existed, text::option_view(row.previous_kind), text::option_view(
        row.previous_data,
    )) == before(op)
}

/// Whether a row is the ownership of an added or kept PATH entry: a kept one
/// that pre-existed is never claimed.
pub open spec fn owns_entry(row: OwnedPathEntry, op: OperationRow, machine: Machine) -> bool {
    &&& row.hive_key@ == op.target@
    &&& row.raw@ == column(op.value_data)
    &&& row.normalized@ == path::normal(column(op.value_data), machine)
    &&& row.pre_existed == (op.kind == OpKind::KeepPathEntry && op.previous_existed == Some(true))
    &&& row.added == !row.pre_existed
}

/// Whether a row is the ownership of a created or kept shortcut.
pub open spec fn owns_shortcut(row: OwnedShortcut, op: OperationRow) -> bool {
    row.path@ == op.target@ && row.target@ == column(op.value_data)
}

/// Whether a row is the ownership of a set or kept environment variable.
pub open spec fn owns_variable(row: OwnedEnvironmentVariable, op: OperationRow) -> bool {
    &&& row.hive_key@ == op.target@
    &&& row.name@ == column(op.value_name)
    &&& row.kind@ == column(op.value_kind)
    &&& row.data@ == column(op.value_data)
    &&& (row.pre_existed, text::option_view(row.previous_kind), text::option_view(
        row.previous_data,
    )) == before(op)
}

/// Whether a row is the ownership of a created or kept firewall rule.
pub open spec fn owns_rule(row: OwnedFirewallRule, op: OperationRow) -> bool {
    row.name@ == op.target@ && row.rule@ == column(op.value_data)
}

/// Which table an operation is recorded in.
#[derive(Debug, Clone, Copy, PartialEq, Eq, Structural)]
pub enum Table {
    File,
    Directory,
    RegistryKey,
    RegistryValue,
    PathEntry,
    Shortcut,
    EnvironmentVariable,
    FirewallRule,
    Action,
    /// A removal, and the running of an action, leave no ownership.
    Nowhere,
}

/// Which table an operation is recorded in: installed and kept resources
/// become the owned state; removed ones simply do not reappear.
pub open spec fn table_for(kind: OpKind) -> Table {
    match kind {
        OpKind::InstallFile | OpKind::KeepFile => Table::File,
        OpKind::CreateDirectory | OpKind::KeepDirectory => Table::Directory,
        OpKind::CreateRegistryKey | OpKind::KeepRegistryKey => Table::RegistryKey,
        OpKind::SetRegistryValue | OpKind::KeepRegistryValue => Table::RegistryValue,
        OpKind::AddPathEntry | OpKind::KeepPathEntry => Table::PathEntry,
        OpKind::CreateShortcut | OpKind::KeepShortcut => Table::Shortcut,
        OpKind::SetEnvironmentVariable | OpKind::KeepEnvironmentVariable => {
            Table::EnvironmentVariable
        },
        OpKind::CreateFirewallRule | OpKind::KeepFirewallRule => Table::FirewallRule,
        OpKind::StoreAction => Table::Action,
        _ => Table::Nowhere,
    }
}

/// Which table an operation is recorded in.
pub fn table_of(kind: OpKind) -> (r: Table)
    ensures
        r == table_for(kind),
{
    match kind {
        OpKind::InstallFile | OpKind::KeepFile => Table::File,
        OpKind::CreateDirectory | OpKind::KeepDirectory => Table::Directory,
        OpKind::CreateRegistryKey | OpKind::KeepRegistryKey => Table::RegistryKey,
        OpKind::SetRegistryValue | OpKind::KeepRegistryValue => Table::RegistryValue,
        OpKind::AddPathEntry | OpKind::KeepPathEntry => Table::PathEntry,
        OpKind::CreateShortcut | OpKind::KeepShortcut => Table::Shortcut,
        OpKind::SetEnvironmentVariable | OpKind::KeepEnvironmentVariable => {
            Table::EnvironmentVariable
        },
        OpKind::CreateFirewallRule | OpKind::KeepFirewallRule => Table::FirewallRule,
        OpKind::StoreAction => Table::Action,
        _ => Table::Nowhere,
    }
}

/// What a table identifies an operation's row by: a row written later under
/// the same identity replaces the earlier one. Files and directories are told
/// apart by their exact path, stored definitions by their name and kind, and
/// everything else without regard to case, as Windows does.
pub open spec fn identity(op: OperationRow, machine: Machine) -> (Seq<char>, Seq<char>) {
    match table_for(op.kind) {
        Table::File | Table::Directory => (op.target@, Seq::empty()),
        Table::Action => (op.target@, column(op.value_kind)),
        Table::RegistryValue | Table::EnvironmentVariable => (
            text::lower(op.target@),
            text::lower(column(op.value_name)),
        ),
        Table::PathEntry => (
            text::lower(op.target@),
            path::normal(column(op.value_data), machine),
        ),
        _ => (text::lower(op.target@), Seq::empty()),
    }
}

/// Whether the row of operation `i` is replaced by a later one.
pub open spec fn is_replaced(ops: Seq<OperationRow>, i: int, machine: Machine) -> bool {
    exists|j: int|
        i < j < ops.len() && table_for((#[trigger] ops[j]).kind) == table_for(ops[i].kind)
            && identity(ops[j], machine) == identity(ops[i], machine)
}

/// The operations a table keeps rows of, in their order.
pub open spec fn kept(ops: Seq<OperationRow>, table: Table, machine: Machine) -> Seq<OperationRow>
    decreases ops.len(),
{
    if ops.len() == 0 {
        ops
    } else {
        let rest = kept(ops.drop_first(), table, machine);
        if table_for(ops[0].kind) == table && !is_replaced(ops, 0, machine) {
            seq![ops[0]] + rest
        } else {
            rest
        }
    }
}

fn same_identity(a: &OperationRow, b: &OperationRow, machine: &Machine) -> (r: bool)
    requires
        table_for(a.kind) == table_for(b.kind),
    ensures
        r == (identity(*a, *machine) == identity(*b, *machine)),
{
    let folded = text::same_folded(a.target.as_str(), b.target.as_str());
    match table_of(a.kind) {
        Table::File | Table::Directory => text::same(a.target.as_str(), b.target.as_str()),
        Table::Action => {
            let p = column_of(&a.value_kind);
            let q = column_of(&b.value_kind);
            text::same(a.target.as_str(), b.target.as_str()) && text::same(p.as_str(), q.as_str())
        },
        Table::RegistryValue | Table::EnvironmentVariable => {
            let p = column_of(&a.value_name);
            let q = column_of(&b.value_name);
            folded && text::same_folded(p.as_str(), q.as_str())
        },
        Table::PathEntry => {
            let x = column_of(&a.value_data);
            let y = column_of(&b.value_data);
            let u = path::normalize(x.as_str(), machine);
            let v = path::normalize(y.as_str(), machine);
            folded && text::same(u.as_str(), v.as_str())
        },
        _ => folded,
    }
}

fn replaced(ops: &Vec<OperationRow>, i: usize, machine: &Machine) -> (r: bool)
    requires
        i < ops@.len(),
    ensures
        r == is_replaced(ops@, i as int, *machine),
{
    let table = table_of(ops[i].kind);
    let n: usize = ops.len();
    let mut j: usize = i + 1;
    while j < n
        invariant
            i < j <= n == ops@.len(),
            table == table_for(ops@[i as int].kind),
            forall|k: int|
                i < k < j ==> !(table_for((#[trigger] ops@[k]).kind) == table && identity(
                    ops@[k],
                    *machine,
                ) == identity(ops@[i as int], *machine)),
        decreases ops@.len() - j,
    {
        if table_of(ops[j].kind) == table && same_identity(&ops[j], &ops[i], machine) {
            return true;
        }
        j = j + 1;
    }
    false
}

/// Which operations leave a row, and in which table.
fn rows_kept(ops: &Vec<OperationRow>, table: Table, machine: &Machine) -> (r: Vec<usize>)
    ensures
        r@.len() == kept(ops@, table, *machine).len(),
        forall|k: int|
            0 <= k < r@.len() ==> (#[trigger] r@[k]) < ops@.len() && ops@[r@[k] as int] == kept(
                ops@,
                table,
                *machine,
            )[k] && table_for(ops@[r@[k] as int].kind) == table,
{
    let mut out: Vec<usize> = Vec::new();
    let mut i: usize = 0;
    let ghost whole = kept(ops@, table, *machine);
    assert(ops@.skip(0) =~= ops@);
    while i < ops.len()
        invariant
            i <= ops@.len(),
            whole == kept(ops@, table, *machine),
            out@.len() + kept(ops@.skip(i as int), table, *machine).len() == whole.len(),
            forall|k: int|
                0 <= k < out@.len() ==> (#[trigger] out@[k]) < ops@.len() && ops@[out@[k] as int]
                    == whole[k] && table_for(ops@[out@[k] as int].kind) == table,
            forall|k: int|
                0 <= k < kept(ops@.skip(i as int), table, *machine).len() ==> #[trigger] kept(
                    ops@.skip(i as int),
                    table,
                    *machine,
                )[k] == whole[out@.len() + k],
        decreases ops@.len() - i,
    {
        let ghost rest = ops@.skip(i as int);
        let gone = replaced(ops, i, machine);
        proof {
            assert(rest.drop_first() =~= ops@.skip(i + 1));
            assert(gone == is_replaced(rest, 0, *machine)) by {
                if is_replaced(rest, 0, *machine) {
                    let j = choose|j: int|
                        0 < j < rest.len() && table_for((#[trigger] rest[j]).kind) == table_for(
                            rest[0].kind,
                        ) && identity(rest[j], *machine) == identity(rest[0], *machine);
                    assert(ops@[i + j] == rest[j]);
                }
                if is_replaced(ops@, i as int, *machine) {
                    let j = choose|j: int|
                        i < j < ops@.len() && table_for((#[trigger] ops@[j]).kind) == table_for(
                            ops@[i as int].kind,
                        ) && identity(ops@[j], *machine) == identity(ops@[i as int], *machine);
                    assert(rest[j - i] == ops@[j]);
                }
            }
        }
        let ghost tail = kept(ops@.skip(i + 1), table, *machine);
        let ghost here = kept(rest, table, *machine);
        let ghost before = out@;
        if table_of(ops[i].kind) == table && !gone {
            out.push(i);
            proof {
                assert(here == seq![rest[0]] + tail);
                assert(here[0] == rest[0]);
                assert forall|k: int| 0 <= k < tail.len() implies #[trigger] tail[k]
                    == whole[out@.len() + k] by {
                    assert(here[k + 1] == tail[k]);
                    assert(here[k + 1] == whole[before.len() + (k + 1)]);
                }
            }
        }
        i = i + 1;
    }
    assert(ops@.skip(i as int) =~= Seq::<OperationRow>::empty());
    out
}

/// Whether a row is the ownership of a stored action.
pub open spec fn owns_action(row: OwnedAction, op: OperationRow) -> bool {
    &&& row.name@ == op.target@
    &&& row.definition@ == column(op.value_data)
    &&& match stored_as(op) {
        Ok(stored) => row.phase@ == stored.0 && text::option_view(row.artifact_sha256) == stored.1
            && text::option_view(row.artifact_file) == stored.2 && row.artifact_size == stored.3,
        Err(_) => false,
    }
}

/// What the record of a stored action says of it: its phase, and the hash,
/// the name and the size of a packaged program.
pub open spec fn stored_as(op: OperationRow) -> Result<
    (Seq<char>, Option<Seq<char>>, Option<Seq<char>>, Option<u64>),
    ErrorView,
> {
    if column(op.value_kind) == "quiescence"@ {
        match definition::quiescence_in(column(op.value_data)) {
            Ok(_) => Ok(("quiesce"@, None, None, None)),
            Err(e) => Err(e),
        }
    } else {
        match definition::action_in(column(op.value_data)) {
            Ok(a) => Ok(
                if a.entry.len() == 0 {
                    (a.phase.name(), None, None, None)
                } else {
                    (a.phase.name(), Some(a.sha256), Some(a.file_name), Some(a.size))
                },
            ),
            Err(e) => Err(e),
        }
    }
}

/// Whether an error is that of the first stored action that does not read.
pub open spec fn fails_with(actions: Seq<OperationRow>, e: ErrorView) -> bool {
    exists|i: int|
        {
            &&& 0 <= i < actions.len()
            &&& stored_as(#[trigger] actions[i]) == Err::<
                (Seq<char>, Option<Seq<char>>, Option<Seq<char>>, Option<u64>),
                ErrorView,
            >(e)
            &&& forall|j: int| 0 <= j < i ==> stored_as(#[trigger] actions[j]) is Ok
        }
}

fn action_row(op: &OperationRow) -> (r: Result<OwnedAction, Error>)
    ensures
        match (r, stored_as(*op)) {
            (Ok(row), Ok(_)) => owns_action(row, *op),
            (Err(e), Err(s)) => e@ == s,
            _ => false,
        },
{
    let kind = column_of(&op.value_kind);
    let stored = column_of(&op.value_data);
    let name = op.target.clone();
    if text::same(kind.as_str(), "quiescence") {
        match definition::deserialize_quiescence(stored.as_str()) {
            Err(e) => Err(e),
            Ok(_) => Ok(
                OwnedAction {
                    name,
                    phase: text::owned("quiesce"),
                    definition: stored,
                    artifact_sha256: None,
                    artifact_file: None,
                    artifact_size: None,
                },
            ),
        }
    } else {
        match definition::deserialize(stored.as_str()) {
            Err(e) => Err(e),
            Ok(a) => {
                let phase = text::owned(a.phase.as_str());
                if a.is_packaged() {
                    Ok(
                        OwnedAction {
                            name,
                            phase,
                            definition: stored,
                            artifact_sha256: Some(a.sha256.clone()),
                            artifact_file: Some(a.file_name.clone()),
                            artifact_size: Some(a.size),
                        },
                    )
                } else {
                    Ok(
                        OwnedAction {
                            name,
                            phase,
                            definition: stored,
                            artifact_sha256: None,
                            artifact_file: None,
                            artifact_size: None,
                        },
                    )
                }
            },
        }
    }
}

/// Whether an ownership is what a journal of applied operations leaves.
pub open spec fn is_left_by(o: Owned, ops: Seq<OperationRow>, machine: Machine) -> bool {
    let files = kept(ops, Table::File, machine);
    let directories = kept(ops, Table::Directory, machine);
    let keys = kept(ops, Table::RegistryKey, machine);
    let values = kept(ops, Table::RegistryValue, machine);
    let entries = kept(ops, Table::PathEntry, machine);
    let shortcuts = kept(ops, Table::Shortcut, machine);
    let variables = kept(ops, Table::EnvironmentVariable, machine);
    let rules = kept(ops, Table::FirewallRule, machine);
    let actions = kept(ops, Table::Action, machine);
    &&& o.files@.len() == files.len()
    &&& forall|i: int| 0 <= i < files.len() ==> owns_file(#[trigger] o.files@[i], files[i])
    &&& o.directories@.len() == directories.len()
    &&& forall|i: int|
        0 <= i < directories.len() ==> owns_directory(#[trigger] o.directories@[i], directories[i])
    &&& o.registry_keys@.len() == keys.len()
    &&& forall|i: int| 0 <= i < keys.len() ==> owns_key(#[trigger] o.registry_keys@[i], keys[i])
    &&& o.registry_values@.len() == values.len()
    &&& forall|i: int|
        0 <= i < values.len() ==> owns_value(#[trigger] o.registry_values@[i], values[i])
    &&& o.path_entries@.len() == entries.len()
    &&& forall|i: int|
        0 <= i < entries.len() ==> owns_entry(#[trigger] o.path_entries@[i], entries[i], machine)
    &&& o.shortcuts@.len() == shortcuts.len()
    &&& forall|i: int|
        0 <= i < shortcuts.len() ==> owns_shortcut(#[trigger] o.shortcuts@[i], shortcuts[i])
    &&& o.environment_variables@.len() == variables.len()
    &&& forall|i: int|
        0 <= i < variables.len() ==> owns_variable(
            #[trigger] o.environment_variables@[i],
            variables[i],
        )
    &&& o.firewall_rules@.len() == rules.len()
    &&& forall|i: int|
        0 <= i < rules.len() ==> owns_rule(#[trigger] o.firewall_rules@[i], rules[i])
    &&& o.actions@.len() == actions.len()
    &&& forall|i: int|
        0 <= i < actions.len() ==> owns_action(#[trigger] o.actions@[i], actions[i])
}

fn files_left(ops: &Vec<OperationRow>, machine: &Machine) -> (r: Vec<OwnedFile>)
    ensures
        r@.len() == kept(ops@, Table::File, *machine).len(),
        forall|i: int|
            0 <= i < r@.len() ==> owns_file(
                #[trigger] r@[i],
                kept(ops@, Table::File, *machine)[i],
            ),
{
    let rows = rows_kept(ops, Table::File, machine);
    let ghost all = kept(ops@, Table::File, *machine);
    let mut out: Vec<OwnedFile> = Vec::new();
    let mut i: usize = 0;
    while i < rows.len()
        invariant
            i <= rows@.len() == all.len(),
            forall|k: int|
                0 <= k < rows@.len() ==> (#[trigger] rows@[k]) < ops@.len() && ops@[rows@[k] as int]
                    == all[k] && table_for(ops@[rows@[k] as int].kind) == Table::File,
            out@.len() == i,
            forall|k: int| 0 <= k < i ==> owns_file(#[trigger] out@[k], all[k]),
        decreases rows@.len() - i,
    {
        let at: usize = rows[i];
        let op = &ops[at];
        let size: u64 = match op.expected_size {
            Some(size) => size,
            None => 0,
        };
        out.push(
            OwnedFile {
                path: op.target.clone(),
                sha256: column_of(&op.applied_sha256),
                size,
                modified: op.applied_modified,
            },
        );
        i = i + 1;
    }
    out
}

fn directories_left(ops: &Vec<OperationRow>, machine: &Machine) -> (r: Vec<OwnedDirectory>)
    ensures
        r@.len() == kept(ops@, Table::Directory, *machine).len(),
        forall|i: int|
            0 <= i < r@.len() ==> owns_directory(
                #[trigger] r@[i],
                kept(ops@, Table::Directory, *machine)[i],
            ),
{
    let rows = rows_kept(ops, Table::Directory, machine);
    let ghost all = kept(ops@, Table::Directory, *machine);
    let mut out: Vec<OwnedDirectory> = Vec::new();
    let mut i: usize = 0;
    while i < rows.len()
        invariant
            i <= rows@.len() == all.len(),
            forall|k: int|
                0 <= k < rows@.len() ==> (#[trigger] rows@[k]) < ops@.len() && ops@[rows@[k] as int]
                    == all[k] && table_for(ops@[rows@[k] as int].kind) == Table::Directory,
            out@.len() == i,
            forall|k: int| 0 <= k < i ==> owns_directory(#[trigger] out@[k], all[k]),
        decreases rows@.len() - i,
    {
        let at: usize = rows[i];
        let op = &ops[at];
        let created = matches!(op.previous_existed, Some(false));
        out.push(OwnedDirectory { path: op.target.clone(), created });
        i = i + 1;
    }
    out
}

fn keys_left(ops: &Vec<OperationRow>, machine: &Machine) -> (r: Vec<OwnedRegistryKey>)
    ensures
        r@.len() == kept(ops@, Table::RegistryKey, *machine).len(),
        forall|i: int|
            0 <= i < r@.len() ==> owns_key(
                #[trigger] r@[i],
                kept(ops@, Table::RegistryKey, *machine)[i],
            ),
{
    let rows = rows_kept(ops, Table::RegistryKey, machine);
    let ghost all = kept(ops@, Table::RegistryKey, *machine);
    let mut out: Vec<OwnedRegistryKey> = Vec::new();
    let mut i: usize = 0;
    while i < rows.len()
        invariant
            i <= rows@.len() == all.len(),
            forall|k: int|
                0 <= k < rows@.len() ==> (#[trigger] rows@[k]) < ops@.len() && ops@[rows@[k] as int]
                    == all[k] && table_for(ops@[rows@[k] as int].kind) == Table::RegistryKey,
            out@.len() == i,
            forall|k: int| 0 <= k < i ==> owns_key(#[trigger] out@[k], all[k]),
        decreases rows@.len() - i,
    {
        let at: usize = rows[i];
        let op = &ops[at];
        let created = matches!(op.previous_existed, Some(false));
        out.push(OwnedRegistryKey { key: op.target.clone(), created });
        i = i + 1;
    }
    out
}

fn values_left(ops: &Vec<OperationRow>, machine: &Machine) -> (r: Vec<OwnedRegistryValue>)
    ensures
        r@.len() == kept(ops@, Table::RegistryValue, *machine).len(),
        forall|i: int|
            0 <= i < r@.len() ==> owns_value(
                #[trigger] r@[i],
                kept(ops@, Table::RegistryValue, *machine)[i],
            ),
{
    let rows = rows_kept(ops, Table::RegistryValue, machine);
    let ghost all = kept(ops@, Table::RegistryValue, *machine);
    let mut out: Vec<OwnedRegistryValue> = Vec::new();
    let mut i: usize = 0;
    while i < rows.len()
        invariant
            i <= rows@.len() == all.len(),
            forall|k: int|
                0 <= k < rows@.len() ==> (#[trigger] rows@[k]) < ops@.len() && ops@[rows@[k] as int]
                    == all[k] && table_for(ops@[rows@[k] as int].kind) == Table::RegistryValue,
            out@.len() == i,
            forall|k: int| 0 <= k < i ==> owns_value(#[trigger] out@[k], all[k]),
        decreases rows@.len() - i,
    {
        let at: usize = rows[i];
        let op = &ops[at];
        let (pre_existed, previous_kind, previous_data) = before_of(op);
        out.push(
            OwnedRegistryValue {
                key: op.target.clone(),
                name: column_of(&op.value_name),
                kind: column_of(&op.value_kind),
                data: column_of(&op.value_data),
                pre_existed,
                previous_kind,
                previous_data,
            },
        );
        i = i + 1;
    }
    out
}

fn entries_left(ops: &Vec<OperationRow>, machine: &Machine) -> (r: Vec<OwnedPathEntry>)
    ensures
        r@.len() == kept(ops@, Table::PathEntry, *machine).len(),
        forall|i: int|
            0 <= i < r@.len() ==> owns_entry(
                #[trigger] r@[i],
                kept(ops@, Table::PathEntry, *machine)[i], *machine,
            ),
{
    let rows = rows_kept(ops, Table::PathEntry, machine);
    let ghost all = kept(ops@, Table::PathEntry, *machine);
    let mut out: Vec<OwnedPathEntry> = Vec::new();
    let mut i: usize = 0;
    while i < rows.len()
        invariant
            i <= rows@.len() == all.len(),
            forall|k: int|
                0 <= k < rows@.len() ==> (#[trigger] rows@[k]) < ops@.len() && ops@[rows@[k] as int]
                    == all[k] && table_for(ops@[rows@[k] as int].kind) == Table::PathEntry,
            out@.len() == i,
            forall|k: int| 0 <= k < i ==> owns_entry(#[trigger] out@[k], all[k], *machine),
        decreases rows@.len() - i,
    {
        let at: usize = rows[i];
        let op = &ops[at];
        let raw = column_of(&op.value_data);
        let normalized = path::normalize(raw.as_str(), machine);
        let pre_existed = matches!(op.kind, OpKind::KeepPathEntry) && matches!(
            op.previous_existed,
            Some(true)
        );
        out.push(
            OwnedPathEntry {
                hive_key: op.target.clone(),
                raw,
                normalized,
                pre_existed,
                added: !pre_existed,
            },
        );
        i = i + 1;
    }
    out
}

fn shortcuts_left(ops: &Vec<OperationRow>, machine: &Machine) -> (r: Vec<OwnedShortcut>)
    ensures
        r@.len() == kept(ops@, Table::Shortcut, *machine).len(),
        forall|i: int|
            0 <= i < r@.len() ==> owns_shortcut(
                #[trigger] r@[i],
                kept(ops@, Table::Shortcut, *machine)[i],
            ),
{
    let rows = rows_kept(ops, Table::Shortcut, machine);
    let ghost all = kept(ops@, Table::Shortcut, *machine);
    let mut out: Vec<OwnedShortcut> = Vec::new();
    let mut i: usize = 0;
    while i < rows.len()
        invariant
            i <= rows@.len() == all.len(),
            forall|k: int|
                0 <= k < rows@.len() ==> (#[trigger] rows@[k]) < ops@.len() && ops@[rows@[k] as int]
                    == all[k] && table_for(ops@[rows@[k] as int].kind) == Table::Shortcut,
            out@.len() == i,
            forall|k: int| 0 <= k < i ==> owns_shortcut(#[trigger] out@[k], all[k]),
        decreases rows@.len() - i,
    {
        let at: usize = rows[i];
        let op = &ops[at];
        out.push(OwnedShortcut { path: op.target.clone(), target: column_of(&op.value_data) });
        i = i + 1;
    }
    out
}

fn variables_left(ops: &Vec<OperationRow>, machine: &Machine) -> (r: Vec<OwnedEnvironmentVariable>)
    ensures
        r@.len() == kept(ops@, Table::EnvironmentVariable, *machine).len(),
        forall|i: int|
            0 <= i < r@.len() ==> owns_variable(
                #[trigger] r@[i],
                kept(ops@, Table::EnvironmentVariable, *machine)[i],
            ),
{
    let rows = rows_kept(ops, Table::EnvironmentVariable, machine);
    let ghost all = kept(ops@, Table::EnvironmentVariable, *machine);
    let mut out: Vec<OwnedEnvironmentVariable> = Vec::new();
    let mut i: usize = 0;
    while i < rows.len()
        invariant
            i <= rows@.len() == all.len(),
            forall|k: int|
                0 <= k < rows@.len() ==> (#[trigger] rows@[k]) < ops@.len() && ops@[rows@[k] as int]
                    == all[k] && table_for(ops@[rows@[k] as int].kind) == Table::EnvironmentVariable,
            out@.len() == i,
            forall|k: int| 0 <= k < i ==> owns_variable(#[trigger] out@[k], all[k]),
        decreases rows@.len() - i,
    {
        let at: usize = rows[i];
        let op = &ops[at];
        let (pre_existed, previous_kind, previous_data) = before_of(op);
        out.push(
            OwnedEnvironmentVariable {
                hive_key: op.target.clone(),
                name: column_of(&op.value_name),
                kind: column_of(&op.value_kind),
                data: column_of(&op.value_data),
                pre_existed,
                previous_kind,
                previous_data,
            },
        );
        i = i + 1;
    }
    out
}

fn rules_left(ops: &Vec<OperationRow>, machine: &Machine) -> (r: Vec<OwnedFirewallRule>)
    ensures
        r@.len() == kept(ops@, Table::FirewallRule, *machine).len(),
        forall|i: int|
            0 <= i < r@.len() ==> owns_rule(
                #[trigger] r@[i],
                kept(ops@, Table::FirewallRule, *machine)[i],
            ),
{
    let rows = rows_kept(ops, Table::FirewallRule, machine);
    let ghost all = kept(ops@, Table::FirewallRule, *machine);
    let mut out: Vec<OwnedFirewallRule> = Vec::new();
    let mut i: usize = 0;
    while i < rows.len()
        invariant
            i <= rows@.len() == all.len(),
            forall|k: int|
                0 <= k < rows@.len() ==> (#[trigger] rows@[k]) < ops@.len() && ops@[rows@[k] as int]
                    == all[k] && table_for(ops@[rows@[k] as int].kind) == Table::FirewallRule,
            out@.len() == i,
            forall|k: int| 0 <= k < i ==> owns_rule(#[trigger] out@[k], all[k]),
        decreases rows@.len() - i,
    {
        let at: usize = rows[i];
        let op = &ops[at];
        out.push(OwnedFirewallRule { name: op.target.clone(), rule: column_of(&op.value_data) });
        i = i + 1;
    }
    out
}

fn actions_left(ops: &Vec<OperationRow>, machine: &Machine) -> (r: Result<Vec<OwnedAction>, Error>)
    ensures
        match r {
            Ok(v) => {
                &&& v@.len() == kept(ops@, Table::Action, *machine).len()
                &&& forall|i: int|
                    0 <= i < v@.len() ==> owns_action(
                        #[trigger] v@[i],
                        kept(ops@, Table::Action, *machine)[i],
                    )
            },
            Err(e) => fails_with(kept(ops@, Table::Action, *machine), e@),
        },
{
    let rows = rows_kept(ops, Table::Action, machine);
    let ghost all = kept(ops@, Table::Action, *machine);
    let mut out: Vec<OwnedAction> = Vec::new();
    let mut i: usize = 0;
    while i < rows.len()
        invariant
            i <= rows@.len() == all.len(),
            all == kept(ops@, Table::Action, *machine),
            forall|k: int|
                0 <= k < rows@.len() ==> (#[trigger] rows@[k]) < ops@.len() && ops@[rows@[k] as int]
                    == all[k] && table_for(ops@[rows@[k] as int].kind) == Table::Action,
            out@.len() == i,
            forall|k: int| 0 <= k < i ==> owns_action(#[trigger] out@[k], all[k]),
        decreases rows@.len() - i,
    {
        let at: usize = rows[i];
        match action_row(&ops[at]) {
            Err(e) => {
                proof {
                    assert(stored_as(all[i as int]) is Err);
                    assert forall|j: int| 0 <= j < i implies stored_as(#[trigger] all[j]) is Ok by {
                        assert(owns_action(out@[j], all[j]));
                    }
                }
                return Err(e);
            },
            Ok(row) => {
                out.push(row);
            },
        }
        i = i + 1;
    }
    Ok(out)
}

/// The ownership a journal of applied operations leaves: installed and kept
/// resources become the owned state, removed ones simply do not reappear, and
/// a resource journaled twice is owned as it was journaled last. A stored
/// definition that does not read ends it.
pub fn record_ownership(ops: &Vec<OperationRow>, machine: &Machine) -> (r: Result<Owned, Error>)
    ensures
        match r {
            Ok(o) => is_left_by(o, ops@, *machine) && o.registration_key is None,
            Err(e) => fails_with(kept(ops@, Table::Action, *machine), e@),
        },
{
    let files = files_left(ops, machine);
    let directories = directories_left(ops, machine);
    let registry_keys = keys_left(ops, machine);
    let registry_values = values_left(ops, machine);
    let path_entries = entries_left(ops, machine);
    let shortcuts = shortcuts_left(ops, machine);
    let environment_variables = variables_left(ops, machine);
    let firewall_rules = rules_left(ops, machine);
    match actions_left(ops, machine) {
        Err(e) => Err(e),
        Ok(actions) => Ok(
            Owned {
                files,
                directories,
                registry_keys,
                registry_values,
                path_entries,
                shortcuts,
                environment_variables,
                firewall_rules,
                actions,
                registration_key: None,
            },
        ),
    }
}

/// The installation row a commit writes.
pub fn installation_of(
    txn: &TransactionRow,
    installation_id: &str,
    engine_version: &str,
    now: &str,
) -> (r: InstallationRow)
    ensures
        r.id@ == installation_id@,
        r.product_id@ == txn.package_id@,
        r.version@ == txn.package_version@,
        r.scope@ == txn.scope@,
        r.install_root@ == txn.install_root@,
        r.engine_version@ == engine_version@,
        r.committed_at@ == now@,
        r.registration_key == txn.registration_key,
        r.accepted_license_sha256 == txn.accepted_license_sha256,
{
    InstallationRow {
        id: text::owned(installation_id),
        product_id: txn.package_id.clone(),
        version: txn.package_version.clone(),
        scope: txn.scope.clone(),
        install_root: txn.install_root.clone(),
        engine_version: text::owned(engine_version),
        committed_at: text::owned(now),
        registration_key: txn.registration_key.clone(),
        accepted_license_sha256: txn.accepted_license_sha256.clone(),
    }
}

/// What a column of an option holds.
#[derive(Debug, PartialEq, Eq)]
pub enum StoredValue {
    Integer(i64),
    Text(String),
    /// Anything else a column can hold.
    Other,
}

/// The option value a stored column holds: text, or an integer where an older
/// engine wrote it. A reader looking at an older file sees the integer and
/// reads the boolean it is.
pub fn option_value_of(value: StoredValue) -> (r: OptionValue)
    ensures
        r@ == match value {
            StoredValue::Integer(n) => OptionView::Bool(n != 0),
            StoredValue::Text(s) => if s@ == "true"@ {
                OptionView::Bool(true)
            } else if s@ == "false"@ {
                OptionView::Bool(false)
            } else {
                OptionView::Choice(s@)
            },
            StoredValue::Other => OptionView::Bool(false),
        },
{
    match value {
        StoredValue::Integer(n) => OptionValue::Bool(n != 0),
        StoredValue::Text(s) => {
            if text::same(s.as_str(), "true") {
                OptionValue::Bool(true)
            } else if text::same(s.as_str(), "false") {
                OptionValue::Bool(false)
            } else {
                OptionValue::Choice(s)
            }
        },
        StoredValue::Other => OptionValue::Bool(false),
    }
}

/// What was there before a value is carried through the journal unchanged: a
/// value planned with the state to put back is owned with exactly that state,
/// and with exactly what was written.
pub proof fn lemma_ownership_carries_the_restore_state(
    kind: OpKind,
    key: KeyView,
    name: Seq<char>,
    data: DataView,
    restore: Option<DataView>,
    op: OperationRow,
    transaction: Seq<char>,
    at: int,
    row: OwnedRegistryValue,
)
    requires
        data.well_formed(),
        restore matches Some(previous) ==> previous.well_formed() && previous.kind() != "absent"@,
        journaled(op, operation::value(kind, key, name, data, Some(restore)), transaction, at),
        owns_value(row, op),
    ensures
        registry::recorded(row.kind@, row.data@) == Ok::<DataView, ErrorView>(data),
        registry::restored(row) == Ok::<Option<DataView>, ErrorView>(restore),
{
    machine::lemma_data_round_trip(data);
    match restore {
        Some(previous) => {
            machine::lemma_data_round_trip(previous);
        },
        None => {},
    }
}

/// The hashes of the packaged programs of a stop and a resume.
pub open spec fn packaged(q: definition::QuiescenceView) -> Seq<Seq<char>> {
    let stop = if q.stop.entry.len() > 0 {
        seq![text::lower(q.stop.sha256)]
    } else {
        Seq::empty()
    };
    match q.resume {
        Some(resume) => if resume.entry.len() > 0 {
            stop.push(text::lower(resume.sha256))
        } else {
            stop
        },
        None => stop,
    }
}

/// The hashes of the programs an owned action keeps.
pub open spec fn kept_by(record: OwnedAction) -> Result<Seq<Seq<char>>, ErrorView> {
    if record.phase@ == "quiesce"@ {
        match definition::quiescence_in(record.definition@) {
            Ok(q) => Ok(packaged(q)),
            Err(e) => Err(e),
        }
    } else {
        match record.artifact_sha256 {
            Some(sha256) => Ok(seq![text::lower(sha256@)]),
            None => Ok(Seq::empty()),
        }
    }
}

/// The hashes of the programs some owned actions keep, each once, or the first
/// definition that does not read.
pub open spec fn program_hashes(records: Seq<OwnedAction>) -> Result<Seq<Seq<char>>, ErrorView>
    decreases records.len(),
{
    if records.len() == 0 {
        Ok(Seq::empty())
    } else {
        match program_hashes(records.drop_last()) {
            Err(e) => Err(e),
            Ok(before) => match kept_by(records.last()) {
                Err(e) => Err(e),
                Ok(more) => Ok(joined(before, more)),
            },
        }
    }
}

/// A list with what it does not hold yet of another.
pub open spec fn joined(before: Seq<Seq<char>>, more: Seq<Seq<char>>) -> Seq<Seq<char>>
    decreases more.len(),
{
    if more.len() == 0 {
        before
    } else {
        let init = joined(before, more.drop_last());
        if init.contains(more.last()) {
            init
        } else {
            init.push(more.last())
        }
    }
}

fn packaged_of(q: &definition::Quiescence) -> (r: Vec<String>)
    ensures
        text::views(r@) == packaged(q@),
{
    let mut out: Vec<String> = Vec::new();
    if q.stop.is_packaged() {
        out.push(text::lower_of(q.stop.sha256.as_str()));
    }
    match &q.resume {
        Some(resume) => {
            if resume.is_packaged() {
                out.push(text::lower_of(resume.sha256.as_str()));
            }
        },
        None => {},
    }
    assert(text::views(out@) =~= packaged(q@));
    out
}

proof fn lemma_hashes_fail(records: Seq<OwnedAction>, i: int)
    requires
        0 <= i <= records.len(),
        program_hashes(records.take(i)) is Err,
    ensures
        program_hashes(records) == program_hashes(records.take(i)),
    decreases records.len() - i,
{
    if i < records.len() {
        assert(records.take(i + 1).drop_last() =~= records.take(i));
        lemma_hashes_fail(records, i + 1);
    } else {
        assert(records.take(i) =~= records);
    }
}

fn join_hashes(out: &mut Vec<String>, more: &Vec<String>)
    ensures
        text::views(final(out)@) == joined(text::views(old(out)@), text::views(more@)),
{
    let ghost all = text::views(more@);
    let ghost had = text::views(out@);
    let mut i: usize = 0;
    while i < more.len()
        invariant
            i <= more@.len(),
            all == text::views(more@),
            text::views(out@) == joined(had, all.take(i as int)),
        decreases more@.len() - i,
    {
        proof {
            assert(all.take(i + 1).drop_last() =~= all.take(i as int));
            assert(all.take(i + 1).last() == more@[i as int]@);
        }
        if !text::listed(out, more[i].as_str()) {
            let hash = more[i].clone();
            proof {
                text::lemma_views_push(out@, hash);
            }
            out.push(hash);
        }
        i = i + 1;
    }
    assert(all.take(i as int) =~= all);
}

/// The hashes of every packaged program the installation keeps in its action
/// store: the uninstall actions' and the quiescence entries' stop and resume
/// programs. What a store sweep must leave alone.
pub fn owned_program_hashes(records: &Vec<OwnedAction>) -> (r: Result<Vec<String>, Error>)
    ensures
        match (r, program_hashes(records@)) {
            (Ok(a), Ok(b)) => text::views(a@) == b,
            (Err(a), Err(b)) => a@ == b,
            _ => false,
        },
{
    let ghost all = records@;
    let mut out: Vec<String> = Vec::new();
    let mut i: usize = 0;
    assert(all.take(0) =~= Seq::<OwnedAction>::empty());
    assert(text::views(out@) =~= Seq::<Seq<char>>::empty());
    while i < records.len()
        invariant
            i <= records@.len(),
            all == records@,
            program_hashes(all.take(i as int)) == Ok::<Seq<Seq<char>>, ErrorView>(
                text::views(out@),
            ),
        decreases records@.len() - i,
    {
        proof {
            assert(all.take(i + 1).drop_last() =~= all.take(i as int));
            assert(all.take(i + 1).last() == records@[i as int]);
        }
        let record = &records[i];
        let more = if text::same(record.phase.as_str(), "quiesce") {
            match definition::deserialize_quiescence(record.definition.as_str()) {
                Ok(q) => packaged_of(&q),
                Err(e) => {
                    proof {
                        lemma_hashes_fail(all, i + 1);
                    }
                    return Err(e);
                },
            }
        } else {
            let mut one: Vec<String> = Vec::new();
            match &record.artifact_sha256 {
                Some(sha256) => {
                    one.push(text::lower_of(sha256.as_str()));
                },
                None => {},
            }
            assert(text::views(one@) =~= match record.artifact_sha256 {
                Some(sha256) => seq![text::lower(sha256@)],
                None => Seq::empty(),
            });
            one
        };
        join_hashes(&mut out, &more);
        i = i + 1;
    }
    assert(all.take(i as int) =~= all);
    Ok(out)
}

}
