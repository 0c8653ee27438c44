//! What a commit leaves in the database: for an installing transaction the
//! installation row, the ownership made of the journal and the effective
//! options; for an uninstall nothing. Before the commit nothing is owned and
//! the run can still be taken back; after it the run is over.

use vstd::prelude::*;

use crate::error::{Error, ErrorView};
use crate::machine::Machine;
use crate::resource::predicate::Options;
use crate::state::installation::{InstallationRow, Owned};
use crate::state::journal;
use crate::state::journal::{OperationRow, StoredTransaction, TransactionRow, TxnState};
use crate::state::ownership;
use crate::state::ownership::Table;
use crate::text;

verus! {

/// What a state database holds once a transaction committed.
#[derive(Debug)]
pub struct Committed {
    pub installation: Option<InstallationRow>,
    pub owned: Owned,
    pub options: Options,
    pub transaction: TransactionRow,
}

/// A transaction that committed.
pub open spec fn is_over(t: TransactionRow, before: TransactionRow, now: Seq<char>) -> bool {
    &&& t.finished_at matches Some(at) && at@ == now
    &&& t == (TransactionRow {
        state: TxnState::Committed,
        finished_at: t.finished_at,
        ..before
    })
}

/// The installation row a commit writes.
pub open spec fn is_row_of(
    row: InstallationRow,
    txn: TransactionRow,
    id: Seq<char>,
    engine: Seq<char>,
    now: Seq<char>,
) -> bool {
    &&& row.id@ == id
    &&& row.product_id@ == txn.package_id@
    &&& row.version@ == txn.package_version@
    &&& row.scope@ == txn.scope@
    &&& row.install_root@ == txn.install_root@
    &&& row.engine_version@ == engine
    &&& row.committed_at@ == now
    &&& row.registration_key == txn.registration_key
    &&& row.accepted_license_sha256 == txn.accepted_license_sha256
}

impl TransactionRow {
    /// A state transition; a time already recorded stays where none is given.
    pub fn set_transaction_state(&mut self, state: TxnState, finished_at: Option<String>)
        ensures
            *final(self) == (TransactionRow {
                state,
                finished_at: match finished_at {
                    Some(at) => Some(at),
                    None => old(self).finished_at,
                },
                ..*old(self)
            }),
    {
        self.state = state;
        if finished_at.is_some() {
            self.finished_at = finished_at;
        }
    }
}

/// The commit of an installing transaction: the installation row is
/// rewritten, what is owned is rewritten from the journal (installed and kept
/// resources become the owned state; removed ones simply do not reappear), the
/// effective options are recorded, and the transaction becomes `committed`. A
/// journaled definition that does not read leaves everything as it was.
pub fn commit_ownership(
    txn: TransactionRow,
    operations: &Vec<OperationRow>,
    options: Options,
    installation_id: &str,
    engine_version: &str,
    now: &str,
    machine: &Machine,
) -> (r: Result<Committed, Error>)
    ensures
        match r {
            Ok(c) => {
                &&& c.installation matches Some(row) && is_row_of(
                    row,
                    txn,
                    installation_id@,
                    engine_version@,
                    now@,
                )
                &&& ownership::is_left_by(c.owned, operations@, *machine)
                &&& c.owned.registration_key == txn.registration_key
                &&& c.options == options
                &&& is_over(c.transaction, txn, now@)
            },
            Err(e) => ownership::fails_with(
                ownership::kept(operations@, Table::Action, *machine),
                e@,
            ),
        },
{
    match ownership::record_ownership(operations, machine) {
        Err(e) => Err(e),
        Ok(mut owned) => {
            owned.registration_key = txn.registration_key.clone();
            let row = ownership::installation_of(&txn, installation_id, engine_version, now);
            let mut transaction = txn;
            transaction.set_transaction_state(TxnState::Committed, Some(text::owned(now)));
            Ok(Committed { installation: Some(row), owned, options, transaction })
        },
    }
}

/// The commit of an uninstall: nothing is installed, nothing is owned, and the
/// transaction becomes `committed`.
pub fn commit_uninstall(txn: TransactionRow, now: &str) -> (r: Committed)
    ensures
        r.installation is None,
        owns_nothing(r.owned),
        r.options.listed().len() == 0,
        is_over(r.transaction, txn, now@),
{
    let mut transaction = txn;
    transaction.set_transaction_state(TxnState::Committed, Some(text::owned(now)));
    Committed {
        installation: None,
        owned: Owned::default(),
        options: Options::new(),
        transaction,
    }
}

/// Nothing is owned.
pub open spec fn owns_nothing(o: Owned) -> bool {
    &&& o.files@.len() == 0
    &&& o.directories@.len() == 0
    &&& o.registry_keys@.len() == 0
    &&& o.registry_values@.len() == 0
    &&& o.path_entries@.len() == 0
    &&& o.shortcuts@.len() == 0
    &&& o.environment_variables@.len() == 0
    &&& o.firewall_rules@.len() == 0
    &&& o.actions@.len() == 0
    &&& o.registration_key is None
}

/// A transaction that committed is over: no later run finds it open in the
/// row that was written of it.
pub proof fn lemma_a_committed_transaction_is_over(
    t: TransactionRow,
    before: TransactionRow,
    now: Seq<char>,
)
    requires
        is_over(t, before, now),
    ensures
        t.state.terminal(),
        forall|stored: StoredTransaction|
            stored.state@ == t.state.name() ==> !#[trigger] journal::is_open(stored),
{
}

/// What an installation is recorded as: what its transaction installed, where
/// and for whom.
pub proof fn lemma_what_an_installation_is_recorded_as(
    row: InstallationRow,
    txn: TransactionRow,
    id: Seq<char>,
    engine: Seq<char>,
    now: Seq<char>,
)
    requires
        is_row_of(row, txn, id, engine, now),
    ensures
        row.id@ == id,
        row.product_id@ == txn.package_id@,
        row.version@ == txn.package_version@,
        row.scope@ == txn.scope@,
        row.install_root@ == txn.install_root@,
        row.engine_version@ == engine,
        row.committed_at@ == now,
        row.registration_key == txn.registration_key,
        row.accepted_license_sha256 == txn.accepted_license_sha256,
{
}

}
