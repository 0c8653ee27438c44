//! The order a transaction is run in: the applications the package stops
//! itself, then whatever still holds a file the plan touches, then the
//! journal, then the machine. Everything from the first stop on runs under its
//! settlement: a failure anywhere resumes what was stopped before it is
//! reported.

use vstd::prelude::*;

use crate::error::Error;

verus! {

/// What has come of a transaction so far.
#[derive(Debug)]
pub struct TransactionWorld {
    /// The applications the package stops itself are stopped, or one could not
    /// be.
    pub quiesced: Option<Result<(), Error>>,
    /// Nothing holds a file the plan touches.
    pub freed: Option<Result<(), Error>>,
    /// The journal has the transaction and its operations.
    pub begun: Option<Result<(), Error>>,
    /// The operations ran, forward and to the commit or back, to an outcome.
    pub executed: Option<Result<(), Error>>,
    /// What was stopped is settled.
    pub settled: bool,
}

/// What a transaction is to do next.
#[derive(Debug, Clone, Copy, PartialEq, Eq, Structural)]
pub enum TransactionStep {
    /// The package's own stop programs are to be run.
    Quiesce,
    /// The applications holding files are to be closed.
    FreeFiles,
    /// The plan is to be journaled.
    Begin,
    /// The operations are to be run.
    Execute,
    /// The stopped applications are to be settled by the outcome.
    Settle,
    /// The stopped applications are to be resumed: the run failed.
    Resume,
    /// The outcome is to be reported.
    Report,
    /// The error is to be reported.
    Fail,
}

/// What a failure from the first stop on is followed by.
pub open spec fn after_failure(settled: bool) -> TransactionStep {
    if settled {
        TransactionStep::Fail
    } else {
        TransactionStep::Resume
    }
}

/// What a transaction is to do next.
pub open spec fn step(w: TransactionWorld) -> TransactionStep {
    match w.quiesced {
        None => TransactionStep::Quiesce,
        Some(Err(_)) => after_failure(w.settled),
        Some(Ok(_)) => match w.freed {
            None => TransactionStep::FreeFiles,
            Some(Err(_)) => after_failure(w.settled),
            Some(Ok(_)) => match w.begun {
                None => TransactionStep::Begin,
                Some(Err(_)) => after_failure(w.settled),
                Some(Ok(_)) => match w.executed {
                    None => TransactionStep::Execute,
                    Some(Err(_)) => after_failure(w.settled),
                    Some(Ok(_)) => if w.settled {
                        TransactionStep::Report
                    } else {
                        TransactionStep::Settle
                    },
                },
            },
        },
    }
}

fn failed(settled: bool) -> (r: TransactionStep)
    ensures
        r == after_failure(settled),
{
    if settled {
        TransactionStep::Fail
    } else {
        TransactionStep::Resume
    }
}

/// What a transaction is to do next.
pub fn transact(w: &TransactionWorld) -> (r: TransactionStep)
    ensures
        r == step(*w),
{
    match &w.quiesced {
        None => TransactionStep::Quiesce,
        Some(Err(_)) => failed(w.settled),
        Some(Ok(_)) => match &w.freed {
            None => TransactionStep::FreeFiles,
            Some(Err(_)) => failed(w.settled),
            Some(Ok(_)) => match &w.begun {
                None => TransactionStep::Begin,
                Some(Err(_)) => failed(w.settled),
                Some(Ok(_)) => match &w.executed {
                    None => TransactionStep::Execute,
                    Some(Err(_)) => failed(w.settled),
                    Some(Ok(_)) => if w.settled {
                        TransactionStep::Report
                    } else {
                        TransactionStep::Settle
                    },
                },
            },
        },
    }
}

/// Applications holding files the plan touches are closed before the
/// transaction opens, so a run that cannot free them has changed nothing at
/// all: nothing is journaled and nothing is run before every stop and the
/// closing succeeded.
pub proof fn lemma_nothing_is_journaled_before_the_files_are_free(w: TransactionWorld)
    requires
        step(w) is Begin || step(w) is Execute || step(w) is Settle || step(w) is Report,
    ensures
        w.quiesced matches Some(Ok(_)),
        w.freed matches Some(Ok(_)),
{
}

/// Nothing is run that is not journaled.
pub proof fn lemma_the_journal_comes_first(w: TransactionWorld)
    requires
        step(w) is Execute,
    ensures
        w.begun matches Some(Ok(_)),
{
}

/// A failure anywhere from the first stop on — a stop that failed among them —
/// resumes what was stopped before it is reported, and no outcome is reported
/// with the stopped left unsettled.
pub proof fn lemma_what_was_stopped_is_settled_before_the_end(w: TransactionWorld)
    requires
        step(w) is Fail || step(w) is Report,
    ensures
        w.settled,
{
}

}
