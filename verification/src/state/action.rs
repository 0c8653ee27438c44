//! Every execution of a custom action, `started` before the process exists
//! and finished with what it produced. It is evidence, not ownership: nothing
//! plans from it, and it is what lets a restart tell an action that was
//! running when the power went from one that never ran.

use vstd::prelude::*;

use crate::lists;
use crate::text;

verus! {

/// The process is being started, or was running when the record was last
/// written.
pub const STARTED: &'static str = "started";

/// Exited with a success code (a reboot code counts).
pub const COMPLETED: &'static str = "completed";

/// Exited with a code that is neither.
pub const FAILED: &'static str = "failed";

/// Killed at its deadline.
pub const TIMED_OUT: &'static str = "timed_out";

/// The process could not be started.
pub const LAUNCH_FAILED: &'static str = "launch_failed";

/// Found `started` by a later run: what it did before the interruption is not
/// known.
pub const INTERRUPTED: &'static str = "interrupted";

/// One recorded run.
#[derive(Debug, Clone, PartialEq, Eq)]
pub struct ActionRun {
    pub id: i64,
    pub transaction_id: String,
    pub sequence: i64,
    pub name: String,
    pub phase: String,
    pub operation: String,
    pub kind: String,
    pub program: String,
    pub on_failure: String,
    pub status: String,
    pub exit_code: Option<i32>,
    pub reboot_required: bool,
    pub started_at: String,
    pub finished_at: Option<String>,
}

/// What an action that is about to be started is.
#[derive(Debug)]
pub struct Starting {
    pub name: String,
    pub phase: &'static str,
    pub operation: &'static str,
    pub kind: &'static str,
    pub program: String,
    pub on_failure: &'static str,
}

/// The row of an action that is about to be started: it is written before the
/// process exists.
pub fn start(
    id: i64,
    transaction_id: &str,
    sequence: i64,
    starting: Starting,
    now: &str,
) -> (r: ActionRun)
    ensures
        r.id == id,
        r.transaction_id@ == transaction_id@,
        r.sequence == sequence,
        r.name == starting.name,
        r.phase@ == starting.phase@,
        r.operation@ == starting.operation@,
        r.kind@ == starting.kind@,
        r.program == starting.program,
        r.on_failure@ == starting.on_failure@,
        r.status@ == "started"@,
        r.exit_code is None,
        !r.reboot_required,
        r.started_at@ == now@,
        r.finished_at is None,
{
    ActionRun {
        id,
        transaction_id: text::owned(transaction_id),
        sequence,
        name: starting.name,
        phase: text::owned(starting.phase),
        operation: text::owned(starting.operation),
        kind: text::owned(starting.kind),
        program: starting.program,
        on_failure: text::owned(starting.on_failure),
        status: text::owned(STARTED),
        exit_code: None,
        reboot_required: false,
        started_at: text::owned(now),
        finished_at: None,
    }
}

impl ActionRun {
    /// Records how a started run ended.
    pub fn finish(&mut self, status: &str, exit_code: Option<i32>, reboot_required: bool, now: &str)
        ensures
            *final(self) == (ActionRun {
                status: final(self).status,
                exit_code,
                reboot_required,
                finished_at: final(self).finished_at,
                ..*old(self)
            }),
            final(self).status@ == status@,
            text::option_view(final(self).finished_at) == Some(now@),
    {
        self.status = text::owned(status);
        self.exit_code = exit_code;
        self.reboot_required = reboot_required;
        self.finished_at = Some(text::owned(now));
    }
}

/// Holds of the runs recorded for one operation of a transaction.
pub open spec fn is_of(transaction_id: Seq<char>, sequence: i64) -> spec_fn(ActionRun) -> bool {
    |r: ActionRun| r.transaction_id@ == transaction_id && r.sequence == sequence
}

/// The latest run recorded for one operation of a transaction, if any; `rows`
/// stand in the order they were recorded in.
pub fn latest<'a>(rows: &'a Vec<ActionRun>, transaction_id: &str, sequence: i64) -> (r: Option<
    &'a ActionRun,
>)
    ensures
        match r {
            Some(row) => lists::last(rows@, is_of(transaction_id@, sequence)) == Some(*row),
            None => lists::last(rows@, is_of(transaction_id@, sequence)) is None,
        },
{
    let ghost p = is_of(transaction_id@, sequence);
    let mut i: usize = rows.len();
    assert(rows@.take(i as int) =~= rows@);
    while i > 0
        invariant
            i <= rows@.len(),
            p == is_of(transaction_id@, sequence),
            lists::last(rows@, p) == lists::last(rows@.take(i as int), p),
        decreases i,
    {
        assert(rows@.take(i as int).drop_last() =~= rows@.take(i - 1));
        if text::same(rows[i - 1].transaction_id.as_str(), transaction_id) && rows[i - 1].sequence
            == sequence {
            return Some(&rows[i - 1]);
        }
        i = i - 1;
    }
    None
}

}
