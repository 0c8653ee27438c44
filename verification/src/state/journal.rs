//! The transaction journal: `transaction` and `operation` rows, their state
//! machines, and what a commit makes of them.
//!
//! Operation: `planned → prepared → applying → applied`; on failure
//! `rolling_back → rolled_back | rollback_failed`.
//! Transaction: `running → committed`, or `rolling_back → rolled_back`, with
//! `rollback_failed` when an undo could not be completed. Any non-terminal
//! state found on restart needs recovery.

use vstd::prelude::*;

use crate::error::{Error, ErrorView};
use crate::text;

verus! {

/// What a word no state or kind has is refused with.
pub open spec fn unknown(what: Seq<char>, stored: Seq<char>) -> ErrorView {
    ErrorView {
        code: "journal_inconsistent"@,
        message: "unknown "@ + what + " "@ + text::quoted(stored),
    }
}

fn unknown_word(what: &str, stored: &str) -> (r: Error)
    ensures
        r@ == unknown(what@, stored@),
{
    let shown = text::quoted_of(stored);
    let message = text::cat4("unknown ", what, " ", shown.as_str());
    Error::new("journal_inconsistent", message.as_str())
}

/// What a transaction does.
#[derive(Debug, Clone, Copy, PartialEq, Eq, Structural)]
pub enum TxnKind {
    Install,
    Upgrade,
    /// The same version reconciled with explicit options.
    Reinstall,
    Repair,
    Uninstall,
}

impl TxnKind {
    /// The stored word.
    pub open spec fn name(self) -> Seq<char> {
        match self {
            TxnKind::Install => "install"@,
            TxnKind::Upgrade => "upgrade"@,
            TxnKind::Reinstall => "reinstall"@,
            TxnKind::Repair => "repair"@,
            TxnKind::Uninstall => "uninstall"@,
        }
    }

    /// The stored word.
    pub fn as_str(self) -> (r: &'static str)
        ensures
            r@ == self.name(),
    {
        match self {
            TxnKind::Install => "install",
            TxnKind::Upgrade => "upgrade",
            TxnKind::Reinstall => "reinstall",
            TxnKind::Repair => "repair",
            TxnKind::Uninstall => "uninstall",
        }
    }

    /// The transaction kind a stored word names.
    pub fn parse(stored: &str) -> (r: Result<TxnKind, Error>)
        ensures
            match r {
                Ok(k) => k.name() == stored@,
                Err(e) => e@ == unknown("transaction kind"@, stored@) && forall|k: TxnKind|
                    #[trigger] k.name() != stored@,
            },
    {
        if text::same(stored, "install") {
            Ok(TxnKind::Install)
        } else if text::same(stored, "upgrade") {
            Ok(TxnKind::Upgrade)
        } else if text::same(stored, "reinstall") {
            Ok(TxnKind::Reinstall)
        } else if text::same(stored, "repair") {
            Ok(TxnKind::Repair)
        } else if text::same(stored, "uninstall") {
            Ok(TxnKind::Uninstall)
        } else {
            Err(unknown_word("transaction kind", stored))
        }
    }
}

/// No two stored words of a transaction kind are the same.
pub proof fn lemma_txnkind_words(a: TxnKind, b: TxnKind)
    requires
        a.name() == b.name(),
    ensures
        a == b,
{
    reveal_strlit("install");
    reveal_strlit("upgrade");
    reveal_strlit("reinstall");
    reveal_strlit("repair");
    reveal_strlit("uninstall");
    assert("install"@.len() == 7);
    assert("upgrade"@.len() == 7);
    assert("reinstall"@.len() == 9);
    assert("repair"@.len() == 6);
    assert("uninstall"@.len() == 9);
    assert("install"@[0] == 'i');
    assert("upgrade"@[0] == 'u');
    assert("reinstall"@[0] == 'r');
    assert("uninstall"@[0] == 'u');
}

impl TxnKind {
    /// Whether the commit records ownership (as opposed to removing it).
    pub fn installs(self) -> (r: bool)
        ensures
            r == (self != TxnKind::Uninstall),
    {
        !matches!(self, TxnKind::Uninstall)
    }
}

/// Where a transaction is.
#[derive(Debug, Clone, Copy, PartialEq, Eq, Structural)]
pub enum TxnState {
    Running,
    Committed,
    RollingBack,
    RolledBack,
    RollbackFailed,
}

impl TxnState {
    /// The stored word.
    pub open spec fn name(self) -> Seq<char> {
        match self {
            TxnState::Running => "running"@,
            TxnState::Committed => "committed"@,
            TxnState::RollingBack => "rolling_back"@,
            TxnState::RolledBack => "rolled_back"@,
            TxnState::RollbackFailed => "rollback_failed"@,
        }
    }

    /// The stored word.
    pub fn as_str(self) -> (r: &'static str)
        ensures
            r@ == self.name(),
    {
        match self {
            TxnState::Running => "running",
            TxnState::Committed => "committed",
            TxnState::RollingBack => "rolling_back",
            TxnState::RolledBack => "rolled_back",
            TxnState::RollbackFailed => "rollback_failed",
        }
    }

    /// The transaction state a stored word names.
    pub fn parse(stored: &str) -> (r: Result<TxnState, Error>)
        ensures
            match r {
                Ok(k) => k.name() == stored@,
                Err(e) => e@ == unknown("transaction state"@, stored@) && forall|k: TxnState|
                    #[trigger] k.name() != stored@,
            },
    {
        if text::same(stored, "running") {
            Ok(TxnState::Running)
        } else if text::same(stored, "committed") {
            Ok(TxnState::Committed)
        } else if text::same(stored, "rolling_back") {
            Ok(TxnState::RollingBack)
        } else if text::same(stored, "rolled_back") {
            Ok(TxnState::RolledBack)
        } else if text::same(stored, "rollback_failed") {
            Ok(TxnState::RollbackFailed)
        } else {
            Err(unknown_word("transaction state", stored))
        }
    }
}

/// No two stored words of a transaction state are the same.
pub proof fn lemma_txnstate_words(a: TxnState, b: TxnState)
    requires
        a.name() == b.name(),
    ensures
        a == b,
{
    reveal_strlit("running");
    reveal_strlit("committed");
    reveal_strlit("rolling_back");
    reveal_strlit("rolled_back");
    reveal_strlit("rollback_failed");
    assert("running"@.len() == 7);
    assert("committed"@.len() == 9);
    assert("rolling_back"@.len() == 12);
    assert("rolled_back"@.len() == 11);
    assert("rollback_failed"@.len() == 15);
}

impl TxnState {
    /// The states a transaction ends in.
    pub open spec fn terminal(self) -> bool {
        self == TxnState::Committed || self == TxnState::RolledBack
    }

    /// Whether a transaction in this state needs no recovery.
    pub fn is_terminal(self) -> (r: bool)
        ensures
            r == self.terminal(),
    {
        matches!(self, TxnState::Committed | TxnState::RolledBack)
    }
}

/// Every typed operation. A `keep_*` is an owned resource the new state
/// still wants unchanged: no mutation, only ownership re-tagged at commit,
/// journaled `applied` from the start.
#[derive(Debug, Clone, Copy, PartialEq, Eq, Structural)]
pub enum OpKind {
    InstallFile,
    CreateDirectory,
    RemoveFile,
    RemoveDirectory,
    KeepFile,
    KeepDirectory,
    CreateRegistryKey,
    RemoveRegistryKey,
    KeepRegistryKey,
    SetRegistryValue,
    RemoveRegistryValue,
    KeepRegistryValue,
    AddPathEntry,
    RemovePathEntry,
    KeepPathEntry,
    CreateShortcut,
    RemoveShortcut,
    KeepShortcut,
    SetEnvironmentVariable,
    RestoreEnvironmentVariable,
    KeepEnvironmentVariable,
    CreateFirewallRule,
    RemoveFirewallRule,
    KeepFirewallRule,
    RunAction,
    StoreAction,
}

impl OpKind {
    /// The stored word.
    pub open spec fn name(self) -> Seq<char> {
        match self {
            OpKind::InstallFile => "install_file"@,
            OpKind::CreateDirectory => "create_directory"@,
            OpKind::RemoveFile => "remove_file"@,
            OpKind::RemoveDirectory => "remove_directory"@,
            OpKind::KeepFile => "keep_file"@,
            OpKind::KeepDirectory => "keep_directory"@,
            OpKind::CreateRegistryKey => "create_registry_key"@,
            OpKind::RemoveRegistryKey => "remove_registry_key"@,
            OpKind::KeepRegistryKey => "keep_registry_key"@,
            OpKind::SetRegistryValue => "set_registry_value"@,
            OpKind::RemoveRegistryValue => "remove_registry_value"@,
            OpKind::KeepRegistryValue => "keep_registry_value"@,
            OpKind::AddPathEntry => "add_path_entry"@,
            OpKind::RemovePathEntry => "remove_path_entry"@,
            OpKind::KeepPathEntry => "keep_path_entry"@,
            OpKind::CreateShortcut => "create_shortcut"@,
            OpKind::RemoveShortcut => "remove_shortcut"@,
            OpKind::KeepShortcut => "keep_shortcut"@,
            OpKind::SetEnvironmentVariable => "set_environment_variable"@,
            OpKind::RestoreEnvironmentVariable => "restore_environment_variable"@,
            OpKind::KeepEnvironmentVariable => "keep_environment_variable"@,
            OpKind::CreateFirewallRule => "create_firewall_rule"@,
            OpKind::RemoveFirewallRule => "remove_firewall_rule"@,
            OpKind::KeepFirewallRule => "keep_firewall_rule"@,
            OpKind::RunAction => "run_action"@,
            OpKind::StoreAction => "store_action"@,
        }
    }

    /// The stored word.
    pub fn as_str(self) -> (r: &'static str)
        ensures
            r@ == self.name(),
    {
        match self {
            OpKind::InstallFile => "install_file",
            OpKind::CreateDirectory => "create_directory",
            OpKind::RemoveFile => "remove_file",
            OpKind::RemoveDirectory => "remove_directory",
            OpKind::KeepFile => "keep_file",
            OpKind::KeepDirectory => "keep_directory",
            OpKind::CreateRegistryKey => "create_registry_key",
            OpKind::RemoveRegistryKey => "remove_registry_key",
            OpKind::KeepRegistryKey => "keep_registry_key",
            OpKind::SetRegistryValue => "set_registry_value",
            OpKind::RemoveRegistryValue => "remove_registry_value",
            OpKind::KeepRegistryValue => "keep_registry_value",
            OpKind::AddPathEntry => "add_path_entry",
            OpKind::RemovePathEntry => "remove_path_entry",
            OpKind::KeepPathEntry => "keep_path_entry",
            OpKind::CreateShortcut => "create_shortcut",
            OpKind::RemoveShortcut => "remove_shortcut",
            OpKind::KeepShortcut => "keep_shortcut",
            OpKind::SetEnvironmentVariable => "set_environment_variable",
            OpKind::RestoreEnvironmentVariable => "restore_environment_variable",
            OpKind::KeepEnvironmentVariable => "keep_environment_variable",
            OpKind::CreateFirewallRule => "create_firewall_rule",
            OpKind::RemoveFirewallRule => "remove_firewall_rule",
            OpKind::KeepFirewallRule => "keep_firewall_rule",
            OpKind::RunAction => "run_action",
            OpKind::StoreAction => "store_action",
        }
    }

    /// The operation kind a stored word names.
    pub fn parse(stored: &str) -> (r: Result<OpKind, Error>)
        ensures
            match r {
                Ok(k) => k.name() == stored@,
                Err(e) => e@ == unknown("operation kind"@, stored@) && forall|k: OpKind|
                    #[trigger] k.name() != stored@,
            },
    {
        if text::same(stored, "install_file") {
            Ok(OpKind::InstallFile)
        } else if text::same(stored, "create_directory") {
            Ok(OpKind::CreateDirectory)
        } else if text::same(stored, "remove_file") {
            Ok(OpKind::RemoveFile)
        } else if text::same(stored, "remove_directory") {
            Ok(OpKind::RemoveDirectory)
        } else if text::same(stored, "keep_file") {
            Ok(OpKind::KeepFile)
        } else if text::same(stored, "keep_directory") {
            Ok(OpKind::KeepDirectory)
        } else if text::same(stored, "create_registry_key") {
            Ok(OpKind::CreateRegistryKey)
        } else if text::same(stored, "remove_registry_key") {
            Ok(OpKind::RemoveRegistryKey)
        } else if text::same(stored, "keep_registry_key") {
            Ok(OpKind::KeepRegistryKey)
        } else if text::same(stored, "set_registry_value") {
            Ok(OpKind::SetRegistryValue)
        } else if text::same(stored, "remove_registry_value") {
            Ok(OpKind::RemoveRegistryValue)
        } else if text::same(stored, "keep_registry_value") {
            Ok(OpKind::KeepRegistryValue)
        } else if text::same(stored, "add_path_entry") {
            Ok(OpKind::AddPathEntry)
        } else if text::same(stored, "remove_path_entry") {
            Ok(OpKind::RemovePathEntry)
        } else if text::same(stored, "keep_path_entry") {
            Ok(OpKind::KeepPathEntry)
        } else if text::same(stored, "create_shortcut") {
            Ok(OpKind::CreateShortcut)
        } else if text::same(stored, "remove_shortcut") {
            Ok(OpKind::RemoveShortcut)
        } else if text::same(stored, "keep_shortcut") {
            Ok(OpKind::KeepShortcut)
        } else if text::same(stored, "set_environment_variable") {
            Ok(OpKind::SetEnvironmentVariable)
        } else if text::same(stored, "restore_environment_variable") {
            Ok(OpKind::RestoreEnvironmentVariable)
        } else if text::same(stored, "keep_environment_variable") {
            Ok(OpKind::KeepEnvironmentVariable)
        } else if text::same(stored, "create_firewall_rule") {
            Ok(OpKind::CreateFirewallRule)
        } else if text::same(stored, "remove_firewall_rule") {
            Ok(OpKind::RemoveFirewallRule)
        } else if text::same(stored, "keep_firewall_rule") {
            Ok(OpKind::KeepFirewallRule)
        } else if text::same(stored, "run_action") {
            Ok(OpKind::RunAction)
        } else if text::same(stored, "store_action") {
            Ok(OpKind::StoreAction)
        } else {
            Err(unknown_word("operation kind", stored))
        }
    }
}

/// No two stored words of a operation kind are the same.
pub proof fn lemma_opkind_words(a: OpKind, b: OpKind)
    requires
        a.name() == b.name(),
    ensures
        a == b,
{
    reveal_strlit("install_file");
    reveal_strlit("create_directory");
    reveal_strlit("remove_file");
    reveal_strlit("remove_directory");
    reveal_strlit("keep_file");
    reveal_strlit("keep_directory");
    reveal_strlit("create_registry_key");
    reveal_strlit("remove_registry_key");
    reveal_strlit("keep_registry_key");
    reveal_strlit("set_registry_value");
    reveal_strlit("remove_registry_value");
    reveal_strlit("keep_registry_value");
    reveal_strlit("add_path_entry");
    reveal_strlit("remove_path_entry");
    reveal_strlit("keep_path_entry");
    reveal_strlit("create_shortcut");
    reveal_strlit("remove_shortcut");
    reveal_strlit("keep_shortcut");
    reveal_strlit("set_environment_variable");
    reveal_strlit("restore_environment_variable");
    reveal_strlit("keep_environment_variable");
    reveal_strlit("create_firewall_rule");
    reveal_strlit("remove_firewall_rule");
    reveal_strlit("keep_firewall_rule");
    reveal_strlit("run_action");
    reveal_strlit("store_action");
    assert("install_file"@.len() == 12);
    assert("create_directory"@.len() == 16);
    assert("remove_file"@.len() == 11);
    assert("remove_directory"@.len() == 16);
    assert("keep_file"@.len() == 9);
    assert("keep_directory"@.len() == 14);
    assert("create_registry_key"@.len() == 19);
    assert("remove_registry_key"@.len() == 19);
    assert("keep_registry_key"@.len() == 17);
    assert("set_registry_value"@.len() == 18);
    assert("remove_registry_value"@.len() == 21);
    assert("keep_registry_value"@.len() == 19);
    assert("add_path_entry"@.len() == 14);
    assert("remove_path_entry"@.len() == 17);
    assert("keep_path_entry"@.len() == 15);
    assert("create_shortcut"@.len() == 15);
    assert("remove_shortcut"@.len() == 15);
    assert("keep_shortcut"@.len() == 13);
    assert("set_environment_variable"@.len() == 24);
    assert("restore_environment_variable"@.len() == 28);
    assert("keep_environment_variable"@.len() == 25);
    assert("create_firewall_rule"@.len() == 20);
    assert("remove_firewall_rule"@.len() == 20);
    assert("keep_firewall_rule"@.len() == 18);
    assert("run_action"@.len() == 10);
    assert("store_action"@.len() == 12);
    assert("install_file"@[0] == 'i');
    assert("store_action"@[0] == 's');
    assert("create_directory"@[0] == 'c');
    assert("remove_directory"@[0] == 'r');
    assert("keep_directory"@[0] == 'k');
    assert("add_path_entry"@[0] == 'a');
    assert("create_registry_key"@[0] == 'c');
    assert("remove_registry_key"@[0] == 'r');
    assert("keep_registry_value"@[0] == 'k');
    assert("keep_registry_key"@[0] == 'k');
    assert("remove_path_entry"@[0] == 'r');
    assert("set_registry_value"@[0] == 's');
    assert("keep_firewall_rule"@[0] == 'k');
    assert("keep_path_entry"@[0] == 'k');
    assert("create_shortcut"@[0] == 'c');
    assert("remove_shortcut"@[0] == 'r');
    assert("create_firewall_rule"@[0] == 'c');
    assert("remove_firewall_rule"@[0] == 'r');
}

impl OpKind {
    /// The kinds that mutate nothing.
    pub open spec fn keeps(self) -> bool {
        ||| self == OpKind::KeepFile
        ||| self == OpKind::KeepDirectory
        ||| self == OpKind::KeepRegistryKey
        ||| self == OpKind::KeepRegistryValue
        ||| self == OpKind::KeepPathEntry
        ||| self == OpKind::KeepShortcut
        ||| self == OpKind::KeepEnvironmentVariable
        ||| self == OpKind::KeepFirewallRule
    }

    /// Keeps mutate nothing and are never walked forward or back.
    pub fn is_keep(self) -> (r: bool)
        ensures
            r == self.keeps(),
    {
        matches!(
            self,
            OpKind::KeepFile | OpKind::KeepDirectory | OpKind::KeepRegistryKey
            | OpKind::KeepRegistryValue | OpKind::KeepPathEntry | OpKind::KeepShortcut
            | OpKind::KeepEnvironmentVariable | OpKind::KeepFirewallRule
        )
    }
}

/// Where an operation is.
#[derive(Debug, Clone, Copy, PartialEq, Eq, Structural)]
pub enum OpState {
    Planned,
    Prepared,
    Applying,
    Applied,
    RollingBack,
    RolledBack,
    RollbackFailed,
}

impl OpState {
    /// The stored word.
    pub open spec fn name(self) -> Seq<char> {
        match self {
            OpState::Planned => "planned"@,
            OpState::Prepared => "prepared"@,
            OpState::Applying => "applying"@,
            OpState::Applied => "applied"@,
            OpState::RollingBack => "rolling_back"@,
            OpState::RolledBack => "rolled_back"@,
            OpState::RollbackFailed => "rollback_failed"@,
        }
    }

    /// The stored word.
    pub fn as_str(self) -> (r: &'static str)
        ensures
            r@ == self.name(),
    {
        match self {
            OpState::Planned => "planned",
            OpState::Prepared => "prepared",
            OpState::Applying => "applying",
            OpState::Applied => "applied",
            OpState::RollingBack => "rolling_back",
            OpState::RolledBack => "rolled_back",
            OpState::RollbackFailed => "rollback_failed",
        }
    }

    /// The operation state a stored word names.
    pub fn parse(stored: &str) -> (r: Result<OpState, Error>)
        ensures
            match r {
                Ok(k) => k.name() == stored@,
                Err(e) => e@ == unknown("operation state"@, stored@) && forall|k: OpState|
                    #[trigger] k.name() != stored@,
            },
    {
        if text::same(stored, "planned") {
            Ok(OpState::Planned)
        } else if text::same(stored, "prepared") {
            Ok(OpState::Prepared)
        } else if text::same(stored, "applying") {
            Ok(OpState::Applying)
        } else if text::same(stored, "applied") {
            Ok(OpState::Applied)
        } else if text::same(stored, "rolling_back") {
            Ok(OpState::RollingBack)
        } else if text::same(stored, "rolled_back") {
            Ok(OpState::RolledBack)
        } else if text::same(stored, "rollback_failed") {
            Ok(OpState::RollbackFailed)
        } else {
            Err(unknown_word("operation state", stored))
        }
    }
}

/// No two stored words of a operation state are the same.
pub proof fn lemma_opstate_words(a: OpState, b: OpState)
    requires
        a.name() == b.name(),
    ensures
        a == b,
{
    reveal_strlit("planned");
    reveal_strlit("prepared");
    reveal_strlit("applying");
    reveal_strlit("applied");
    reveal_strlit("rolling_back");
    reveal_strlit("rolled_back");
    reveal_strlit("rollback_failed");
    assert("planned"@.len() == 7);
    assert("prepared"@.len() == 8);
    assert("applying"@.len() == 8);
    assert("applied"@.len() == 7);
    assert("rolling_back"@.len() == 12);
    assert("rolled_back"@.len() == 11);
    assert("rollback_failed"@.len() == 15);
    assert("planned"@[0] == 'p');
    assert("applied"@[0] == 'a');
    assert("prepared"@[0] == 'p');
    assert("applying"@[0] == 'a');
}

/// One transaction of the journal.
#[derive(Debug, PartialEq, Eq)]
pub struct TransactionRow {
    pub id: String,
    pub kind: TxnKind,
    pub from_version: Option<String>,
    pub to_version: Option<String>,
    pub package_id: String,
    pub package_version: String,
    pub metadata_sha256: String,
    pub scope: String,
    pub install_root: String,
    pub state: TxnState,
    pub started_at: String,
    pub finished_at: Option<String>,
    /// The Add/Remove Programs key an installing transaction registers.
    pub registration_key: Option<String>,
    /// The hash of the licence text the commit records as accepted.
    pub accepted_license_sha256: Option<String>,
}

/// One journaled operation. `target` is the resource identity of the kind:
/// an install-relative path for files and directories, a `HKCU\...` /
/// `HKLM\...` key for registry operations (the environment key for PATH
/// entries, whose entry text is `value_data`), the absolute `.lnk` path for
/// shortcuts (whose link target is `value_data`).
#[derive(Debug, PartialEq, Eq)]
pub struct OperationRow {
    pub transaction_id: String,
    pub sequence: i64,
    pub kind: OpKind,
    pub target: String,
    pub state: OpState,
    pub previous_existed: Option<bool>,
    pub previous_sha256: Option<String>,
    pub backup_path: Option<String>,
    pub payload_entry: Option<String>,
    pub expected_size: Option<u64>,
    pub applied_sha256: Option<String>,
    pub applied_modified: Option<i64>,
    pub result_code: Option<String>,
    /// Registry value name.
    pub value_name: Option<String>,
    /// The kind and data written (registry), the entry text (PATH) or the
    /// link target (shortcut).
    pub value_kind: Option<String>,
    pub value_data: Option<String>,
    /// The undo record of a registry value: what was there before.
    pub previous_kind: Option<String>,
    pub previous_data: Option<String>,
    pub link_arguments: Option<String>,
    pub link_description: Option<String>,
    pub link_icon: Option<String>,
    /// The pre-installation state of a value the plan already knows.
    pub restore_kind: Option<String>,
    pub restore_data: Option<String>,
    pub link_app_user_model_id: Option<String>,
    pub link_working_directory: Option<String>,
}

/// A transaction as its columns hold it: the kind and the state are words.
#[derive(Debug)]
pub struct StoredTransaction {
    pub kind: String,
    pub state: String,
    /// The other columns; its own kind and state say nothing.
    pub rest: TransactionRow,
}

/// An operation as its columns hold it: the kind and the state are words.
#[derive(Debug)]
pub struct StoredOperation {
    pub kind: String,
    pub state: String,
    /// The other columns; its own kind and state say nothing.
    pub rest: OperationRow,
}

/// Whether a row is what the columns of a transaction say, or an error is what
/// they are refused with: of two unknown words the state's is reported.
pub open spec fn reads_transaction(
    r: Result<TransactionRow, Error>,
    stored: StoredTransaction,
) -> bool {
    match r {
        Ok(row) => {
            &&& row.kind.name() == stored.kind@
            &&& row.state.name() == stored.state@
            &&& row == (TransactionRow { kind: row.kind, state: row.state, ..stored.rest })
        },
        Err(e) => if exists|s: TxnState| #[trigger] s.name() == stored.state@ {
            e@ == unknown("transaction kind"@, stored.kind@) && forall|k: TxnKind|
                #[trigger] k.name() != stored.kind@
        } else {
            e@ == unknown("transaction state"@, stored.state@)
        },
    }
}

/// The transaction its columns say.
pub fn read_txn(stored: StoredTransaction) -> (r: Result<TransactionRow, Error>)
    ensures
        reads_transaction(r, stored),
{
    let kind = TxnKind::parse(stored.kind.as_str());
    let state = TxnState::parse(stored.state.as_str());
    match state {
        Err(e) => Err(e),
        Ok(state) => match kind {
            Err(e) => Err(e),
            Ok(kind) => {
                let mut row = stored.rest;
                row.kind = kind;
                row.state = state;
                Ok(row)
            },
        },
    }
}

/// Whether a row is what the columns of an operation say.
pub open spec fn reads_operation(row: OperationRow, stored: StoredOperation) -> bool {
    &&& row.kind.name() == stored.kind@
    &&& row.state.name() == stored.state@
    &&& row == (OperationRow { kind: row.kind, state: row.state, ..stored.rest })
}

/// What the columns of an operation are refused with: the kind's unknown word
/// before the state's.
pub open spec fn unread(stored: StoredOperation) -> Option<ErrorView> {
    if forall|k: OpKind| #[trigger] k.name() != stored.kind@ {
        Some(unknown("operation kind"@, stored.kind@))
    } else if forall|s: OpState| #[trigger] s.name() != stored.state@ {
        Some(unknown("operation state"@, stored.state@))
    } else {
        None
    }
}

fn read_operation(stored: StoredOperation) -> (r: Result<OperationRow, Error>)
    ensures
        match r {
            Ok(row) => reads_operation(row, stored) && unread(stored) is None,
            Err(e) => unread(stored) == Some(e@),
        },
{
    match OpKind::parse(stored.kind.as_str()) {
        Err(e) => Err(e),
        Ok(kind) => match OpState::parse(stored.state.as_str()) {
            Err(e) => Err(e),
            Ok(state) => {
                let mut row = stored.rest;
                row.kind = kind;
                row.state = state;
                Ok(row)
            },
        },
    }
}

/// The operations their columns say, in the order they are stored; the first
/// that does not read ends it.
pub fn operations(stored: Vec<StoredOperation>) -> (r: Result<Vec<OperationRow>, Error>)
    ensures
        match r {
            Ok(rows) => {
                &&& rows@.len() == stored@.len()
                &&& forall|i: int|
                    0 <= i < rows@.len() ==> reads_operation(#[trigger] rows@[i], stored@[i])
            },
            Err(e) => exists|i: int|
                {
                    &&& 0 <= i < stored@.len()
                    &&& unread(#[trigger] stored@[i]) == Some(e@)
                    &&& forall|j: int| 0 <= j < i ==> unread(#[trigger] stored@[j]) is None
                },
        },
{
    let ghost all = stored@;
    let mut rows: Vec<OperationRow> = Vec::new();
    for one in it: stored
        invariant
            it.seq() == all,
            rows@.len() == it.index(),
            forall|j: int| 0 <= j < rows@.len() ==> reads_operation(#[trigger] rows@[j], all[j]),
            forall|j: int| 0 <= j < rows@.len() ==> unread(#[trigger] all[j]) is None,
    {
        match read_operation(one) {
            Err(e) => {
                assert(unread(all[rows@.len() as int]) == Some(e@));
                return Err(e);
            },
            Ok(row) => {
                rows.push(row);
            },
        }
    }
    Ok(rows)
}

/// What `prepare` records durably before a mutation.
#[derive(Debug, PartialEq, Eq)]
pub struct Undo {
    pub existed: bool,
    pub previous_sha256: Option<String>,
    pub backup_path: Option<String>,
    pub previous_kind: Option<String>,
    pub previous_data: Option<String>,
}

impl Default for Undo {
    /// Nothing was there.
    fn default() -> (r: Undo)
        ensures
            !r.existed,
            r.previous_sha256 is None,
            r.backup_path is None,
            r.previous_kind is None,
            r.previous_data is None,
    {
        Undo {
            existed: false,
            previous_sha256: None,
            backup_path: None,
            previous_kind: None,
            previous_data: None,
        }
    }
}

/// Whether the columns of a transaction say that it is not over: an unknown
/// word does not say that it is.
pub open spec fn is_open(stored: StoredTransaction) -> bool {
    stored.state@ != "committed"@ && stored.state@ != "rolled_back"@
}

/// Whether a transaction is not over, and none that is not over started after
/// it.
pub open spec fn is_last_open(rows: Seq<StoredTransaction>, k: int) -> bool {
    &&& 0 <= k < rows.len()
    &&& is_open(rows[k])
    &&& forall|i: int|
        0 <= i < rows.len() && is_open(#[trigger] rows[i]) ==> text::precedes(
            rows[i].rest.started_at@,
            rows[k].rest.started_at@,
        )
}

fn last_open(rows: &Vec<StoredTransaction>) -> (r: Option<usize>)
    ensures
        match r {
            Some(k) => is_last_open(rows@, k as int),
            None => forall|i: int| 0 <= i < rows@.len() ==> !is_open(#[trigger] rows@[i]),
        },
{
    let mut found: Option<usize> = None;
    let mut i: usize = 0;
    while i < rows.len()
        invariant
            i <= rows@.len(),
            match found {
                Some(k) => k < i && is_last_open(rows@.take(i as int), k as int),
                None => forall|j: int| 0 <= j < i ==> !is_open(#[trigger] rows@[j]),
            },
        decreases rows@.len() - i,
    {
        let ghost seen = rows@.take(i as int);
        let ghost now = rows@.take(i + 1);
        let open = !text::same(rows[i].state.as_str(), "committed") && !text::same(
            rows[i].state.as_str(),
            "rolled_back",
        );
        if open {
            let later = match found {
                None => true,
                Some(k) => !text::precedes_of(
                    rows[i].rest.started_at.as_str(),
                    rows[k].rest.started_at.as_str(),
                ),
            };
            proof {
                text::lemma_precedes_reflexive(rows@[i as int].rest.started_at@);
                if later {
                    assert forall|j: int| 0 <= j < now.len() && is_open(#[trigger] now[j])
                        implies text::precedes(
                        now[j].rest.started_at@,
                        now[i as int].rest.started_at@,
                    ) by {
                        if j < i {
                            assert(now[j] == rows@[j] && seen[j] == rows@[j]);
                            let k = found->Some_0 as int;
                            assert(seen[k] == rows@[k]);
                            text::lemma_precedes_total(
                                rows@[k].rest.started_at@,
                                rows@[i as int].rest.started_at@,
                            );
                            text::lemma_precedes_transitive(
                                rows@[j].rest.started_at@,
                                rows@[k].rest.started_at@,
                                rows@[i as int].rest.started_at@,
                            );
                        }
                    }
                    assert(is_last_open(now, i as int));
                } else {
                    let k = found->Some_0 as int;
                    assert forall|j: int| 0 <= j < now.len() && is_open(#[trigger] now[j])
                        implies text::precedes(
                        now[j].rest.started_at@,
                        now[k].rest.started_at@,
                    ) by {
                        if j < i {
                            assert(now[j] == seen[j] && now[k] == seen[k]);
                        }
                    }
                    assert(is_last_open(now, k));
                }
            }
            if later {
                found = Some(i);
            }
        } else {
            proof {
                if found is Some {
                    let k = found->Some_0 as int;
                    assert forall|j: int| 0 <= j < now.len() && is_open(#[trigger] now[j])
                        implies text::precedes(
                        now[j].rest.started_at@,
                        now[k].rest.started_at@,
                    ) by {
                        if j < i {
                            assert(now[j] == seen[j] && now[k] == seen[k]);
                        }
                    }
                    assert(is_last_open(now, k));
                }
            }
        }
        i = i + 1;
    }
    assert(rows@.take(i as int) =~= rows@);
    found
}

/// The one transaction in a non-terminal state, if any: of several, the one
/// that started last. No other row is read.
pub fn open_transaction(rows: Vec<StoredTransaction>) -> (r: Result<Option<TransactionRow>, Error>)
    ensures
        match r {
            Ok(None) => forall|i: int| 0 <= i < rows@.len() ==> !is_open(#[trigger] rows@[i]),
            Ok(Some(row)) => exists|k: int| #[trigger]
                is_last_open(rows@, k) && reads_transaction(Ok(row), rows@[k]),
            Err(e) => exists|k: int| #[trigger]
                is_last_open(rows@, k) && reads_transaction(Err(e), rows@[k]),
        },
{
    let mut rows = rows;
    match last_open(&rows) {
        None => Ok(None),
        Some(k) => {
            let ghost all = rows@;
            let stored = rows.remove(k);
            assert(is_last_open(all, k as int) && stored == all[k as int]);
            match read_txn(stored) {
                Ok(row) => Ok(Some(row)),
                Err(e) => Err(e),
            }
        },
    }
}

/// The state an operation starts in: keeps are applied already, with the
/// ownership they carry forward; everything else is planned.
pub open spec fn first_state(kind: OpKind) -> OpState {
    if kind.keeps() {
        OpState::Applied
    } else {
        OpState::Planned
    }
}

impl OperationRow {
    /// `planned → prepared` with the undo record.
    pub fn mark_prepared(&mut self, undo: Undo)
        ensures
            *final(self) == (OperationRow {
                state: OpState::Prepared,
                previous_existed: Some(undo.existed),
                previous_sha256: undo.previous_sha256,
                backup_path: undo.backup_path,
                previous_kind: undo.previous_kind,
                previous_data: undo.previous_data,
                ..*old(self)
            }),
    {
        self.state = OpState::Prepared;
        self.previous_existed = Some(undo.existed);
        self.previous_sha256 = undo.previous_sha256;
        self.backup_path = undo.backup_path;
        self.previous_kind = undo.previous_kind;
        self.previous_data = undo.previous_data;
    }

    /// Any state transition without extra data.
    pub fn mark_state(&mut self, state: OpState)
        ensures
            *final(self) == (OperationRow { state, ..*old(self) }),
    {
        self.state = state;
    }

    /// `→ applied` with what was written.
    pub fn mark_applied(&mut self, applied_sha256: Option<String>, result_code: Option<String>)
        ensures
            *final(self) == (OperationRow {
                state: OpState::Applied,
                applied_sha256,
                result_code,
                ..*old(self)
            }),
    {
        self.state = OpState::Applied;
        self.applied_sha256 = applied_sha256;
        self.result_code = result_code;
    }
}

/// A stored row reads as what it says: its kind and its state by their words,
/// and everything else as stored.
pub proof fn lemma_a_stored_row_reads_as_it_says(
    r: Result<TransactionRow, Error>,
    t: StoredTransaction,
    row: OperationRow,
    o: StoredOperation,
)
    ensures
        reads_transaction(r, t) && r is Ok ==> r->Ok_0.kind.name() == t.kind@
            && r->Ok_0.state.name() == t.state@ && r->Ok_0.id == t.rest.id && r->Ok_0.install_root
            == t.rest.install_root && r->Ok_0.package_version == t.rest.package_version
            && r->Ok_0.from_version == t.rest.from_version && r->Ok_0.to_version
            == t.rest.to_version && r->Ok_0.scope == t.rest.scope && r->Ok_0.started_at
            == t.rest.started_at,
        reads_operation(row, o) ==> row.kind.name() == o.kind@ && row.state.name() == o.state@
            && row.target == o.rest.target && row.sequence == o.rest.sequence && row.value_data
            == o.rest.value_data && row.backup_path == o.rest.backup_path && row.restore_kind
            == o.rest.restore_kind && row.restore_data == o.rest.restore_data
            && row.previous_existed == o.rest.previous_existed,
{
}

/// The transaction that is open is the one that began last of those that are
/// neither committed nor rolled back.
pub proof fn lemma_which_transaction_is_open(rows: Seq<StoredTransaction>, k: int, i: int)
    requires
        is_last_open(rows, k),
    ensures
        0 <= k < rows.len(),
        rows[k].state@ != "committed"@,
        rows[k].state@ != "rolled_back"@,
        0 <= i < rows.len() && rows[i].state@ != "committed"@ && rows[i].state@ != "rolled_back"@
            ==> text::precedes(rows[i].rest.started_at@, rows[k].rest.started_at@),
{
}

}
