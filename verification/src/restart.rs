//! Closing and restarting the applications that hold a product's files,
//! through the Restart Manager Windows already has.
//!
//! The sequence around a transaction that replaces or removes files is always
//! the same: start a session, register every file the plan touches, ask who
//! holds them, close them if anyone does, run the transaction, then restart
//! what was closed and end the session. Closing happens *before* the
//! transaction opens, so a run that cannot free the files has mutated nothing
//! at all.
//!
//! Either way the only two acceptable ends are "the files were freed and the
//! transaction ran" and "`package_in_use`, nothing touched".

use vstd::prelude::*;

use crate::error::{Error, ErrorView};
use crate::machine::{LinkInspection, Machine};
use crate::paths;
use crate::plan::operation::{OpView, PlannedOperation};
use crate::plan::target;
use crate::report::documents::{Answer, Event, HolderInfo, HolderKind};
use crate::state::journal::OpKind;
use crate::text;

verus! {

/// The failure a run reports when the files could not be freed.
pub const IN_USE_CODE: &'static str = "package_in_use";

/// How many seconds a holder asked to close is given to finish closing before
/// the run concludes that it will not, when Windows closes it by messaging its
/// windows.
///
/// That is the request that works, so a windowed application is given real
/// time to answer it: it may have a document to save, a window to tear down
/// and, where it hosts one, a browser runtime to end with it.
pub const WINDOWED_SHUTDOWN_GRACE: u64 = 60;

/// The same bound for a holder the Restart Manager found no window for.
///
/// A console process with no message loop, or one Windows could not classify
/// at all, is asked in a way it may never answer, so a long wait only delays
/// the `package_in_use` the run is going to report anyway.
pub const OTHER_SHUTDOWN_GRACE: u64 = 10;

/// Whether Windows closes a holder by messaging its windows.
pub open spec fn is_windowed(h: HolderInfo) -> bool {
    h.kind == HolderKind::MainWindow || h.kind == HolderKind::OtherWindow
}

/// How long these holders are given, which is decided by what Windows can ask
/// of them rather than by one number for every kind of holder.
pub fn shutdown_grace(holders: &[HolderInfo]) -> (r: u64)
    ensures
        r == if exists|i: int| 0 <= i < holders@.len() && is_windowed(#[trigger] holders@[i]) {
            WINDOWED_SHUTDOWN_GRACE
        } else {
            OTHER_SHUTDOWN_GRACE
        },
{
    let mut i: usize = 0;
    while i < holders.len()
        invariant
            i <= holders@.len(),
            forall|j: int| 0 <= j < i ==> !is_windowed(#[trigger] holders@[j]),
        decreases holders@.len() - i,
    {
        if matches!(holders[i].kind, HolderKind::MainWindow | HolderKind::OtherWindow) {
            assert(is_windowed(holders@[i as int]));
            return WINDOWED_SHUTDOWN_GRACE;
        }
        i = i + 1;
    }
    OTHER_SHUTDOWN_GRACE
}

/// What the Restart Manager decided a holder is, by the number it gives.
pub open spec fn kind_of(application_type: i32) -> HolderKind {
    if application_type == 1 {
        HolderKind::MainWindow
    } else if application_type == 2 {
        HolderKind::OtherWindow
    } else if application_type == 3 {
        HolderKind::Service
    } else if application_type == 4 {
        HolderKind::Explorer
    } else if application_type == 5 {
        HolderKind::Console
    } else if application_type == 1000 {
        HolderKind::Critical
    } else {
        HolderKind::Unknown
    }
}

/// What the Restart Manager decided a holder is, by the number it gives.
///
/// The classification is made when the list is taken, so it answers a question
/// no other evidence does: a holder listed as having no window is one a
/// graceful request cannot reach, however long it is given, and that is a
/// different failure from an application that was asked and refused.
pub fn classify(application_type: i32) -> (r: HolderKind)
    ensures
        r == kind_of(application_type),
{
    if application_type == 1 {
        HolderKind::MainWindow
    } else if application_type == 2 {
        HolderKind::OtherWindow
    } else if application_type == 3 {
        HolderKind::Service
    } else if application_type == 4 {
        HolderKind::Explorer
    } else if application_type == 5 {
        HolderKind::Console
    } else if application_type == 1000 {
        HolderKind::Critical
    } else {
        HolderKind::Unknown
    }
}

/// One holder in words: `<name> (<pid>, <what Windows can do with it>)`.
pub open spec fn described(h: HolderInfo) -> Seq<char> {
    h.name@ + " ("@ + text::decimal(h.process_id as nat) + ", "@ + h.kind.name() + ")"@
}

/// Several holders in words.
pub open spec fn all_described(holders: Seq<HolderInfo>) -> Seq<char> {
    text::join(holders.map_values(|h: HolderInfo| described(h)), ", "@)
}

/// `<name> (<pid>, <what Windows can do with it>)` for every holder, for a log
/// line and a message.
pub fn describe_holders(holders: &[HolderInfo]) -> (r: String)
    ensures
        r@ == all_described(holders@),
{
    let ghost all = holders@.map_values(|h: HolderInfo| described(h));
    let mut parts: Vec<String> = Vec::new();
    let mut i: usize = 0;
    while i < holders.len()
        invariant
            i <= holders@.len(),
            all == holders@.map_values(|h: HolderInfo| described(h)),
            parts@.len() == i,
            forall|j: int| 0 <= j < i ==> #[trigger] parts@[j]@ == all[j],
        decreases holders@.len() - i,
    {
        let pid = text::decimal_of(holders[i].process_id as u64);
        let head = text::cat4(holders[i].name.as_str(), " (", pid.as_str(), ", ");
        parts.push(text::cat3(head.as_str(), holders[i].kind.as_str(), ")"));
        i = i + 1;
    }
    assert(text::views(parts@) =~= all);
    text::join_of(&parts, ", ")
}

/// An open Restart Manager session.
#[derive(Debug, PartialEq, Eq)]
pub struct Session {
    handle: u32,
    /// Files registered so far, for the log.
    registered: usize,
}

impl Session {
    /// The number Windows knows the session by.
    pub closed spec fn number(self) -> u32 {
        self.handle
    }

    /// How many files are registered.
    pub closed spec fn count(self) -> usize {
        self.registered
    }

    /// A session that has just been started.
    pub fn start(handle: u32) -> (r: Session)
        ensures
            r.number() == handle,
            r.count() == 0,
    {
        Session { handle, registered: 0 }
    }

    /// Notes that some more files were registered.
    pub fn register(&mut self, files: usize)
        requires
            old(self).count() + files <= usize::MAX,
        ensures
            final(self).number() == old(self).number(),
            final(self).count() == old(self).count() + files,
    {
        self.registered = self.registered + files;
    }

    /// The number Windows knows the session by.
    pub fn handle(&self) -> (r: u32)
        ensures
            r == self.number(),
    {
        self.handle
    }

    /// How many files are registered.
    pub fn registered(&self) -> (r: usize)
        ensures
            r == self.count(),
    {
        self.registered
    }
}

/// What looking for a holder's process found.
#[derive(Debug, Clone, Copy, PartialEq, Eq, Structural)]
pub enum Sighting {
    /// There is no process of that id.
    NoSuchProcess,
    /// This run may not look at that process.
    CannotTell,
    /// A process of that id: whether it has ended, and when it started (0
    /// where Windows will not say).
    Process { ended: bool, started_at: u64 },
}

/// Whether a holder is still running, as its process was seen.
pub open spec fn runs(holder: HolderInfo, seen: Sighting) -> bool {
    match seen {
        Sighting::NoSuchProcess => false,
        Sighting::CannotTell => true,
        Sighting::Process { ended, started_at } => !ended && (holder.started_at == 0 || started_at
            == holder.started_at),
    }
}

/// Whether a holder is still running. A process id alone is not an identity —
/// Windows reuses one as soon as the process that had it is gone — so a holder
/// is the same holder only while the process wearing its id also started when
/// it did. Only "there is no such process" says the holder has gone: "cannot
/// tell" must not read as "closed".
pub fn is_running(holder: &HolderInfo, seen: Sighting) -> (r: bool)
    ensures
        r == runs(*holder, seen),
{
    match seen {
        Sighting::NoSuchProcess => false,
        Sighting::CannotTell => true,
        Sighting::Process { ended, started_at } => {
            !ended && (holder.started_at == 0 || started_at == holder.started_at)
        },
    }
}

/// A time of Windows from its two halves.
pub fn file_time(high: u32, low: u32) -> (r: u64)
    ensures
        r == high * 0x1_0000_0000 + low,
{
    high as u64 * 0x1_0000_0000 + low as u64
}

/// The holders that are still running, as their processes were seen.
pub open spec fn running(holders: Seq<HolderInfo>, seen: Seq<Sighting>) -> Seq<HolderInfo>
    decreases holders.len(),
{
    if holders.len() == 0 {
        Seq::empty()
    } else {
        let before = running(holders.drop_last(), seen.drop_last());
        if runs(holders.last(), seen.last()) {
            before.push(holders.last())
        } else {
            before
        }
    }
}

/// The holders that are still running, in the order given, each as its
/// process was seen.
pub fn still_running(holders: &Vec<HolderInfo>, seen: &Vec<Sighting>) -> (r: Vec<HolderInfo>)
    requires
        holders@.len() == seen@.len(),
    ensures
        r@ == running(holders@, seen@),
{
    let mut out: Vec<HolderInfo> = Vec::new();
    let mut i: usize = 0;
    while i < holders.len()
        invariant
            i <= holders@.len() == seen@.len(),
            out@ == running(holders@.take(i as int), seen@.take(i as int)),
        decreases holders@.len() - i,
    {
        proof {
            let some = holders@.take(i as int + 1);
            let sights = seen@.take(i as int + 1);
            assert(some.drop_last() =~= holders@.take(i as int));
            assert(sights.drop_last() =~= seen@.take(i as int));
            assert(some.last() == holders@[i as int]);
            assert(sights.last() == seen@[i as int]);
        }
        if is_running(&holders[i], seen[i]) {
            out.push(holders[i].copy());
        }
        i = i + 1;
    }
    assert(holders@.take(i as int) =~= holders@);
    assert(seen@.take(i as int) =~= seen@);
    out
}

/// One application of the list Windows gives.
#[derive(Debug)]
pub struct Application {
    pub name: String,
    pub process_id: u32,
    pub restartable: bool,
    /// The number of what the Restart Manager decided it is.
    pub application_type: i32,
    pub started_at: u64,
}

/// The holder an application of the list is.
pub open spec fn holder_of(a: Application) -> HolderInfo {
    HolderInfo {
        name: a.name,
        process_id: a.process_id,
        restartable: a.restartable,
        kind: kind_of(a.application_type),
        started_at: a.started_at,
    }
}

/// The holders a list gives to a process: every application but itself.
pub open spec fn holders_in(list: Seq<Application>, own: u32) -> Seq<HolderInfo>
    decreases list.len(),
{
    if list.len() == 0 {
        Seq::empty()
    } else {
        let before = holders_in(list.drop_last(), own);
        if list.last().process_id == own {
            before
        } else {
            before.push(holder_of(list.last()))
        }
    }
}

/// Who holds the files, this process excluded.
pub fn describe(list: &Vec<Application>, own: u32) -> (r: Vec<HolderInfo>)
    ensures
        r@ == holders_in(list@, own),
{
    let mut out: Vec<HolderInfo> = Vec::new();
    let mut i: usize = 0;
    while i < list.len()
        invariant
            i <= list@.len(),
            out@ == holders_in(list@.take(i as int), own),
        decreases list@.len() - i,
    {
        assert(list@.take(i + 1).drop_last() =~= list@.take(i as int));
        let a = &list[i];
        if a.process_id != own {
            out.push(
                HolderInfo {
                    name: a.name.clone(),
                    process_id: a.process_id,
                    restartable: a.restartable,
                    kind: classify(a.application_type),
                    started_at: a.started_at,
                },
            );
        }
        i = i + 1;
    }
    assert(list@.take(i as int) =~= list@);
    out
}

/// An installer never asks Windows to close the installer: it is none of the
/// holders it finds.
pub proof fn lemma_an_installer_never_closes_itself(list: Seq<Application>, own: u32)
    ensures
        forall|i: int|
            0 <= i < holders_in(list, own).len() ==> (#[trigger] holders_in(
                list,
                own,
            )[i]).process_id != own,
    decreases list.len(),
{
    if list.len() > 0 {
        lemma_an_installer_never_closes_itself(list.drop_last(), own);
        let before = holders_in(list.drop_last(), own);
        assert forall|i: int| 0 <= i < holders_in(list, own).len() implies (
        #[trigger] holders_in(list, own)[i]).process_id != own by {
            if i < before.len() {
                assert(holders_in(list, own)[i] == before[i]);
            }
        }
    }
}

/// What a call of the Restart Manager that failed is reported as.
pub open spec fn failure(what: Seq<char>, why: Seq<char>) -> ErrorView {
    ErrorView {
        code: "restart_manager_failed"@,
        message: "the Restart Manager could not "@ + what + ": "@ + why,
    }
}

/// What a call of the Restart Manager that failed is reported as.
pub fn failed(what: &str, why: &str) -> (r: Error)
    ensures
        r@ == failure(what@, why@),
{
    let message = text::cat4("the Restart Manager could not ", what, ": ", why);
    Error::new("restart_manager_failed", message.as_str())
}

/// What asking Windows for the applications of a session came to.
#[derive(Debug)]
pub enum Listed {
    /// The list is complete.
    Complete,
    /// The buffer was too small: how much room the list needs.
    MoreData { needed: u32 },
    /// It failed, and why.
    Failed(String),
}

/// What comes after asking for the list.
#[derive(Debug)]
pub enum Listing {
    /// The list is to be taken as it is.
    Take,
    /// The list is to be asked for again, with this much room.
    Again(u32),
    Refused(Error),
}

/// How often the list is asked for before it is given up.
pub const LISTINGS: u32 = 8;

/// What comes after asking for the list the given time (the first is 1). The
/// list can grow between two calls, so it is asked for again while Windows
/// says the buffer was too small, with room for at least one.
pub fn after_listing(listed: Listed, asked: u32) -> (r: Listing)
    ensures
        match listed {
            Listed::Complete => r is Take,
            Listed::Failed(why) => r matches Listing::Refused(e) && e@ == failure(
                "list the applications"@,
                why@,
            ),
            Listed::MoreData { needed } => if asked < LISTINGS {
                r matches Listing::Again(room) && room == if needed == 0 {
                    1
                } else {
                    needed
                }
            } else {
                r matches Listing::Refused(e) && e@ == (ErrorView {
                    code: "restart_manager_failed"@,
                    message: "the list of applications holding the files kept growing"@,
                })
            },
        },
{
    match listed {
        Listed::Complete => Listing::Take,
        Listed::Failed(why) => Listing::Refused(failed("list the applications", why.as_str())),
        Listed::MoreData { needed } => if asked < LISTINGS {
            Listing::Again(
                if needed == 0 {
                    1
                } else {
                    needed
                },
            )
        } else {
            Listing::Refused(
                Error::new(
                    "restart_manager_failed",
                    "the list of applications holding the files kept growing",
                ),
            )
        },
    }
}

/// Whether a run still waits for its holders: until they are gone, or until
/// their grace is over.
pub fn keeps_waiting(remaining: &Vec<HolderInfo>, waited: u64, within: u64) -> (r: bool)
    ensures
        r == (remaining@.len() > 0 && waited < within),
{
    remaining.len() > 0 && waited < within
}

/// The session a run keeps around its transaction, and the applications it
/// closed.
#[derive(Debug)]
pub struct Quiescence {
    /// Whether a session is open: an ordinary first install never starts one.
    session: bool,
    closed: Vec<HolderInfo>,
}

impl Quiescence {
    /// Whether a session is open.
    pub closed spec fn is_open(self) -> bool {
        self.session
    }

    /// The applications this run closed.
    pub closed spec fn holders(self) -> Seq<HolderInfo> {
        self.closed@
    }

    /// No session: nothing the run does can collide with a running
    /// application.
    pub fn none() -> (r: Quiescence)
        ensures
            !r.is_open(),
            r.holders().len() == 0,
    {
        Quiescence { session: false, closed: Vec::new() }
    }

    fn with(closed: Vec<HolderInfo>) -> (r: Quiescence)
        ensures
            r.is_open(),
            r.holders() == closed@,
    {
        Quiescence { session: true, closed }
    }

    /// The applications this run closed.
    pub fn closed(&self) -> (r: &Vec<HolderInfo>)
        ensures
            r@ == self.holders(),
    {
        &self.closed
    }

    /// What restarting what was closed logs, after the transaction committed
    /// or rolled back: nothing where nothing was closed. Applications that
    /// never asked Windows to restart them simply stay closed.
    pub fn release(&self, restarted: Result<(), String>) -> (r: Option<Event>)
        ensures
            match r {
                None => !self.is_open() || self.holders().len() == 0,
                Some(e) => {
                    &&& self.is_open()
                    &&& self.holders().len() > 0
                    &&& e.progress is None
                    &&& match restarted {
                        Ok(_) => e.code@ == "restart_manager_restart"@ && e.message@
                            == "restarted="@ + text::decimal(
                            restartable(self.holders()),
                        ) + " closed="@ + text::decimal(self.holders().len()) + " "@
                            + all_described(self.holders()),
                        Err(why) => e.code@ == "restart_manager_failed"@ && e.message@ == why@,
                    }
                },
            },
    {
        if !self.session || self.closed.len() == 0 {
            return None;
        }
        match restarted {
            Ok(_) => {
                let ready = text::decimal_of(count_restartable(&self.closed) as u64);
                let all = text::decimal_of(self.closed.len() as u64);
                let names = describe_holders(self.closed.as_slice());
                let message = text::cat6(
                    "restarted=",
                    ready.as_str(),
                    " closed=",
                    all.as_str(),
                    " ",
                    names.as_str(),
                );
                Some(Event { code: "restart_manager_restart", message, progress: None })
            },
            Err(why) => Some(
                Event { code: "restart_manager_failed", message: why, progress: None },
            ),
        }
    }
}

/// How many holders asked Windows to start them again.
pub open spec fn restartable(holders: Seq<HolderInfo>) -> nat
    decreases holders.len(),
{
    if holders.len() == 0 {
        0
    } else {
        restartable(holders.drop_last()) + if holders.last().restartable {
            1nat
        } else {
            0nat
        }
    }
}

fn count_restartable(holders: &Vec<HolderInfo>) -> (r: usize)
    ensures
        r == restartable(holders@),
{
    let mut n: usize = 0;
    let mut i: usize = 0;
    while i < holders.len()
        invariant
            i <= holders@.len(),
            n <= i,
            n == restartable(holders@.take(i as int)),
        decreases holders@.len() - i,
    {
        assert(holders@.take(i + 1).drop_last() =~= holders@.take(i as int));
        if holders[i].restartable {
            n = n + 1;
        }
        i = i + 1;
    }
    assert(holders@.take(i as int) =~= holders@);
    n
}

/// Where freeing the files is.
#[derive(Debug)]
pub enum Stage {
    /// A session is to be started and the files registered in it.
    Start,
    /// The holders of the files are to be listed.
    List,
    /// The person is to be asked whether these may be closed.
    Ask(Vec<HolderInfo>),
    /// These are to be asked to close.
    Close(Vec<HolderInfo>),
    /// These are to be waited for, as long as their grace; the text is why
    /// asking them failed, where it did.
    Wait(Vec<HolderInfo>, Option<String>),
    /// The files are free, or nothing coordinates them.
    Done(Quiescence),
    /// The run may not go on.
    Refused(Error),
}

/// What happened at a stage.
#[derive(Debug)]
pub enum Happened {
    /// The session is open and the files are registered in it, or not.
    Started(Result<(), String>),
    Listed(Result<Vec<HolderInfo>, String>),
    Answered(Answer),
    Asked(Result<(), String>),
    /// These are still running.
    Remaining(Vec<HolderInfo>),
}

/// What a person who wants nothing closed is answered.
pub open spec fn left_running(holders: Seq<HolderInfo>) -> ErrorView {
    ErrorView {
        code: "cancelled"@,
        message: all_described(holders) + " is in use and was left running"@,
    }
}

/// What a run whose files could not be freed is refused with.
pub open spec fn held_open(remaining: Seq<HolderInfo>, why: Option<String>) -> ErrorView {
    ErrorView {
        code: "package_in_use"@,
        message: all_described(remaining) + " is still running"@ + match why {
            Some(why) => ": "@ + why@,
            None => Seq::empty(),
        },
    }
}

/// Where freeing the files starts: a plan that touches no file on the machine
/// opens no session.
pub fn acquire(files: &Vec<String>) -> (r: Stage)
    ensures
        if files@.len() == 0 {
            r matches Stage::Done(q) && !q.is_open() && q.holders().len() == 0
        } else {
            r is Start
        },
{
    if files.len() == 0 {
        Stage::Done(Quiescence::none())
    } else {
        Stage::Start
    }
}

/// Whether a stage follows from what happened. Whether the run may go on is
/// decided by who still holds the files, never by what the calls returned; and
/// a Restart Manager that will not start is a reason to proceed without it — a
/// file genuinely held open then fails its own operation and the transaction
/// rolls back.
pub open spec fn follows(stage: Stage, happened: Happened, quiet: bool, next: Stage) -> bool {
    match (stage, happened) {
        (Stage::Start, Happened::Started(Ok(_))) => next is List,
        (Stage::Start, Happened::Started(Err(_))) => next matches Stage::Done(q) && !q.is_open()
            && q.holders().len() == 0,
        (Stage::List, Happened::Listed(Err(_))) => next matches Stage::Done(q) && !q.is_open()
            && q.holders().len() == 0,
        (Stage::List, Happened::Listed(Ok(holders))) => if holders@.len() == 0 {
            next matches Stage::Done(q) && q.is_open() && q.holders().len() == 0
        } else if quiet {
            next matches Stage::Close(h) && h@ == holders@
        } else {
            next matches Stage::Ask(h) && h@ == holders@
        },
        (Stage::Ask(holders), Happened::Answered(Answer::Cancel)) => next matches Stage::Refused(
            e,
        ) && e@ == left_running(holders@),
        (Stage::Ask(holders), Happened::Answered(Answer::Close)) => next matches Stage::Close(h)
            && h@ == holders@,
        (Stage::Close(holders), Happened::Asked(Ok(_))) => next matches Stage::Wait(h, why) && h@
            == holders@ && why is None,
        (Stage::Close(holders), Happened::Asked(Err(why))) => next matches Stage::Wait(h, w) && h@
            == holders@ && w == Some(why),
        (Stage::Wait(holders, why), Happened::Remaining(remaining)) => if remaining@.len() > 0 {
            next matches Stage::Refused(e) && e@ == held_open(remaining@, why)
        } else {
            next matches Stage::Done(q) && q.is_open() && q.holders() == holders@
        },
        _ => next == stage,
    }
}

fn told(code: &'static str, message: String) -> (r: Vec<Event>)
    ensures
        r@.len() == 1,
        r@[0].code == code,
        r@[0].message == message,
        r@[0].progress is None,
{
    let mut v: Vec<Event> = Vec::new();
    v.push(Event { code, message, progress: None });
    v
}

/// What the log says of a step; none of it is progress.
pub open spec fn logged(stage: Stage, happened: Happened, events: Seq<Event>) -> bool {
    &&& forall|i: int| 0 <= i < events.len() ==> (#[trigger] events[i]).progress is None
    &&& match (stage, happened) {
        (Stage::Start, Happened::Started(Err(why))) => events.len() == 1 && events[0].code@
            == "restart_manager_unavailable"@ && events[0].message@ == why@,
        (Stage::List, Happened::Listed(Err(why))) => events.len() == 1 && events[0].code@
            == "restart_manager_unavailable"@ && events[0].message@ == why@,
        (Stage::List, Happened::Listed(Ok(holders))) => if holders@.len() == 0 {
            events.len() == 0
        } else {
            events.len() == 1 && events[0].code@ == "restart_manager_holders"@
                && events[0].message@ == all_described(holders@)
        },
        (Stage::Wait(holders, why), Happened::Remaining(remaining)) => if remaining@.len() > 0 {
            events.len() == 0
        } else {
            let last = events.last();
            &&& last.code@ == "restart_manager_shutdown"@
            &&& last.message@ == all_described(holders@)
            &&& match why {
                Some(why) => events.len() == 2 && events[0].code@ == "restart_manager_failed"@
                    && events[0].message@ == why@,
                None => events.len() == 1,
            }
        },
        _ => events.len() == 0,
    }
}

/// Decides what follows from what happened, and what the log says of it.
pub fn next(stage: Stage, happened: Happened, quiet: bool) -> (r: (Stage, Vec<Event>))
    ensures
        follows(stage, happened, quiet, r.0),
        logged(stage, happened, r.1@),
{
    match (stage, happened) {
        (Stage::Start, Happened::Started(Ok(_))) => (Stage::List, Vec::new()),
        (Stage::Start, Happened::Started(Err(why))) => {
            (Stage::Done(Quiescence::none()), told("restart_manager_unavailable", why))
        },
        (Stage::List, Happened::Listed(Err(why))) => {
            (Stage::Done(Quiescence::none()), told("restart_manager_unavailable", why))
        },
        (Stage::List, Happened::Listed(Ok(holders))) => {
            if holders.len() == 0 {
                (Stage::Done(Quiescence::with(holders)), Vec::new())
            } else {
                let names = describe_holders(holders.as_slice());
                let events = told("restart_manager_holders", names);
                if quiet {
                    (Stage::Close(holders), events)
                } else {
                    (Stage::Ask(holders), events)
                }
            }
        },
        (Stage::Ask(holders), Happened::Answered(Answer::Cancel)) => {
            let names = describe_holders(holders.as_slice());
            let message = text::cat2(names.as_str(), " is in use and was left running");
            (Stage::Refused(Error::new("cancelled", message.as_str())), Vec::new())
        },
        (Stage::Ask(holders), Happened::Answered(Answer::Close)) => {
            (Stage::Close(holders), Vec::new())
        },
        (Stage::Close(holders), Happened::Asked(Ok(_))) => {
            (Stage::Wait(holders, None), Vec::new())
        },
        (Stage::Close(holders), Happened::Asked(Err(why))) => {
            (Stage::Wait(holders, Some(why)), Vec::new())
        },
        (Stage::Wait(holders, why), Happened::Remaining(remaining)) => {
            if remaining.len() > 0 {
                let names = describe_holders(remaining.as_slice());
                let mut message = text::cat2(names.as_str(), " is still running");
                match &why {
                    Some(why) => {
                        message = text::cat3(message.as_str(), ": ", why.as_str());
                    },
                    None => {},
                }
                assert(message@ =~= held_open(remaining@, why).message);
                (Stage::Refused(Error::new(IN_USE_CODE, message.as_str())), Vec::new())
            } else {
                let names = describe_holders(holders.as_slice());
                let mut events: Vec<Event> = Vec::new();
                match why {
                    Some(why) => {
                        events.push(
                            Event { code: "restart_manager_failed", message: why, progress: None },
                        );
                    },
                    None => {},
                }
                events.push(
                    Event { code: "restart_manager_shutdown", message: names, progress: None },
                );
                (Stage::Done(Quiescence::with(holders)), events)
            }
        },
        (stage, _) => (stage, Vec::new()),
    }
}

/// A run that goes on after closing applications has seen every one of them
/// go: the files are free.
pub proof fn lemma_a_run_goes_on_only_with_the_files_free(
    stage: Stage,
    happened: Happened,
    quiet: bool,
    next: Stage,
)
    requires
        follows(stage, happened, quiet, next),
        stage is Wait,
        next is Done,
    ensures
        happened is Remaining,
        happened->Remaining_0@.len() == 0,
{
}

/// Nobody is asked on a quiet run, and an attended run closes nothing it was
/// not allowed to.
pub proof fn lemma_closing_is_asked_for(
    stage: Stage,
    happened: Happened,
    quiet: bool,
    next: Stage,
)
    requires
        follows(stage, happened, quiet, next),
        next is Close,
        !(stage is Close),
    ensures
        quiet && stage is List || (stage is Ask && happened == Happened::Answered(Answer::Close)),
{
}

/// The path an operation writes over or deletes.
pub open spec fn touched(op: OpView, install_root: Seq<char>) -> Option<Seq<char>> {
    match op.kind {
        OpKind::InstallFile | OpKind::RemoveFile => match target::placed_at(
            install_root,
            op.target,
        ) {
            Ok(at) => Some(at),
            Err(_) => None,
        },
        OpKind::CreateShortcut | OpKind::RemoveShortcut => Some(op.target),
        _ => None,
    }
}

/// Whether a file is at a path.
pub open spec fn is_there(path: Seq<char>, machine: Machine) -> bool {
    machine.file(path) is Some || machine.link(path) !is Absent
}

/// Whether paths stand in order, each once.
pub open spec fn in_order(list: Seq<Seq<char>>) -> bool {
    forall|i: int, j: int|
        0 <= i < j < list.len() ==> paths::path_before(#[trigger] list[i], #[trigger] list[j])
}

/// Whether a path is in a list already, however it is written there.
pub open spec fn is_listed(list: Seq<Seq<char>>, path: Seq<char>) -> bool {
    exists|i: int| 0 <= i < list.len() && paths::same_path(#[trigger] list[i], path)
}

/// The files that operations touch and that are there, in the order of the
/// operations; each once, as it is written first.
pub open spec fn at_risk(
    ops: Seq<OpView>,
    install_root: Seq<char>,
    machine: Machine,
) -> Seq<Seq<char>>
    decreases ops.len(),
{
    if ops.len() == 0 {
        Seq::empty()
    } else {
        let so_far = at_risk(ops.drop_last(), install_root, machine);
        match touched(ops.last(), install_root) {
            Some(path) => if is_there(path, machine) && !is_listed(so_far, path) {
                so_far.push(path)
            } else {
                so_far
            },
            None => so_far,
        }
    }
}

fn insert(out: &mut Vec<String>, path: String)
    requires
        in_order(text::views(old(out)@)),
    ensures
        in_order(text::views(final(out)@)),
        forall|p: Seq<char>| #[trigger]
            text::views(final(out)@).contains(p) <==> text::views(old(out)@).contains(p) || (p
                == path@ && !is_listed(text::views(old(out)@), path@)),
{
    let ghost was = text::views(out@);
    let mut k: usize = 0;
    while k < out.len() && paths::before(out[k].as_str(), path.as_str())
        invariant
            k <= out@.len(),
            was == text::views(out@),
            *out == *old(out),
            forall|j: int| 0 <= j < k ==> paths::path_before(#[trigger] was[j], path@),
        decreases out@.len() - k,
    {
        assert(was[k as int] == out@[k as int]@);
        k = k + 1;
    }
    if k < out.len() {
        assert(was[k as int] == out@[k as int]@);
        if paths::same_path_of(out[k].as_str(), path.as_str()) {
            assert(is_listed(was, path@));
            return;
        }
    }
    proof {
        if k < out@.len() {
            paths::lemma_before_total(paths::parts(was[k as int]), paths::parts(path@));
        }
        let now = was.insert(k as int, path@);
        assert forall|i: int, j: int| 0 <= i < j < now.len() implies paths::path_before(
            #[trigger] now[i],
            #[trigger] now[j],
        ) by {
            if i < k && j == k {
                assert(now[i] == was[i]);
            } else if i == k {
                assert(now[j] == was[j - 1]);
                if j - 1 > k {
                    paths::lemma_before_transitive(
                        paths::parts(path@),
                        paths::parts(was[k as int]),
                        paths::parts(was[j - 1]),
                    );
                }
            } else if i < k && j > k {
                assert(now[i] == was[i] && now[j] == was[j - 1]);
            } else if i < k {
                assert(now[i] == was[i] && now[j] == was[j]);
            } else {
                assert(now[i] == was[i - 1] && now[j] == was[j - 1]);
            }
        }
        assert(!is_listed(was, path@)) by {
            if is_listed(was, path@) {
                let i = choose|i: int|
                    0 <= i < was.len() && paths::same_path(#[trigger] was[i], path@);
                paths::lemma_before_total(paths::parts(path@), paths::parts(path@));
                if i > k {
                    assert(paths::path_before(was[k as int], was[i]));
                    paths::lemma_before_total(paths::parts(was[k as int]), paths::parts(path@));
                }
            }
        }
        assert forall|p: Seq<char>| #[trigger] now.contains(p) <==> was.contains(p) || p
            == path@ by {
            if now.contains(p) && p != path@ {
                let i = choose|i: int| 0 <= i < now.len() && now[i] == p;
                if i < k {
                    assert(was[i] == p);
                } else {
                    assert(was[i - 1] == p);
                }
            }
            if was.contains(p) {
                let i = choose|i: int| 0 <= i < was.len() && was[i] == p;
                if i < k {
                    assert(now[i] == p);
                } else {
                    assert(now[i + 1] == p);
                }
            }
            assert(now[k as int] == path@);
        }
    }
    out.insert(k, path);
    assert(text::views(out@) =~= was.insert(k as int, path@));
}

fn touches(op: &PlannedOperation, install_root: &str) -> (r: Option<String>)
    ensures
        text::option_view(r) == touched(op@, install_root@),
{
    match op.kind {
        OpKind::InstallFile | OpKind::RemoveFile => match target::absolute(
            install_root,
            op.target.as_str(),
        ) {
            Ok(at) => Some(at),
            Err(_) => None,
        },
        OpKind::CreateShortcut | OpKind::RemoveShortcut => Some(op.target.clone()),
        _ => None,
    }
}

/// Every file a plan will write over or delete that is on the machine now:
/// the files it replaces or removes and the shortcuts it rewrites, minus the
/// ones it merely keeps and the ones that are not there yet; each once, part
/// by part, and in the order of their parts.
///
/// Only a file that exists can be held open, so a first installation registers
/// nothing and opens no session at all.
pub fn files_at_risk(
    operations: &Vec<PlannedOperation>,
    install_root: &str,
    machine: &Machine,
) -> (r: Vec<String>)
    ensures
        in_order(text::views(r@)),
        forall|p: Seq<char>| #[trigger]
            text::views(r@).contains(p) <==> at_risk(
                text::views(operations@),
                install_root@,
                *machine,
            ).contains(p),
{
    let ghost ops = text::views(operations@);
    let mut out: Vec<String> = Vec::new();
    let mut i: usize = 0;
    assert(text::views(out@) =~= at_risk(ops.take(0), install_root@, *machine));
    while i < operations.len()
        invariant
            i <= operations@.len(),
            ops == text::views(operations@),
            in_order(text::views(out@)),
            forall|p: Seq<char>| #[trigger]
                text::views(out@).contains(p) <==> at_risk(
                    ops.take(i as int),
                    install_root@,
                    *machine,
                ).contains(p),
        decreases operations@.len() - i,
    {
        let ghost was = text::views(out@);
        let ghost so_far = at_risk(ops.take(i as int), install_root@, *machine);
        let path = touches(&operations[i], install_root);
        proof {
            assert(ops[i as int] == operations@[i as int]@);
            assert(ops.take(i + 1).drop_last() =~= ops.take(i as int));
        }
        match path {
            Some(path) => {
                let link = match machine.inspect_link(path.as_str()) {
                    LinkInspection::Absent => false,
                    _ => true,
                };
                if machine.inspect_file(path.as_str()).is_some() || link {
                    let ghost here = path@;
                    proof {
                        lemma_listed_alike(was, so_far, here);
                    }
                    insert(&mut out, path);
                    proof {
                        let next = at_risk(ops.take(i + 1), install_root@, *machine);
                        assert forall|p: Seq<char>| #[trigger]
                            text::views(out@).contains(p) <==> next.contains(p) by {
                            lemma_push_contains(so_far, here, p);
                            assert(was.contains(p) <==> so_far.contains(p));
                        }
                    }
                }
            },
            None => {},
        }
        i = i + 1;
    }
    assert(ops.take(i as int) =~= ops);
    out
}

/// Lists of the same paths hold the same paths however written.
proof fn lemma_listed_alike(a: Seq<Seq<char>>, b: Seq<Seq<char>>, path: Seq<char>)
    requires
        forall|p: Seq<char>| #[trigger] a.contains(p) <==> b.contains(p),
    ensures
        is_listed(a, path) == is_listed(b, path),
{
    if is_listed(a, path) {
        let i = choose|i: int| 0 <= i < a.len() && paths::same_path(#[trigger] a[i], path);
        assert(a.contains(a[i]));
        let j = choose|j: int| 0 <= j < b.len() && b[j] == a[i];
        assert(paths::same_path(b[j], path));
    }
    if is_listed(b, path) {
        let i = choose|i: int| 0 <= i < b.len() && paths::same_path(#[trigger] b[i], path);
        assert(b.contains(b[i]));
        assert(a.contains(b[i]));
        let j = choose|j: int| 0 <= j < a.len() && a[j] == b[i];
        assert(paths::same_path(a[j], path));
    }
}

proof fn lemma_push_contains(list: Seq<Seq<char>>, path: Seq<char>, p: Seq<char>)
    ensures
        list.push(path).contains(p) <==> list.contains(p) || p == path,
{
    let next = list.push(path);
    if next.contains(p) && p != path {
        let i = choose|i: int| 0 <= i < next.len() && next[i] == p;
        assert(list[i] == p);
    }
    if list.contains(p) {
        let i = choose|i: int| 0 <= i < list.len() && list[i] == p;
        assert(next[i] == p);
    }
    assert(next[list.len() as int] == path);
}

/// Whoever still runs is kept, in order, and nobody else: a process is gone
/// where none has its number, where it ended, or where another began at
/// another time under the number.
pub proof fn lemma_who_still_runs(holders: Seq<HolderInfo>, seen: Seq<Sighting>, i: int)
    requires
        holders.len() == seen.len(),
        0 <= i < holders.len(),
    ensures
        seen[i] is NoSuchProcess ==> !runs(holders[i], seen[i]),
        seen[i] is CannotTell ==> runs(holders[i], seen[i]),
        seen[i] matches Sighting::Process { ended, started_at } ==> (ended ==> !runs(
            holders[i],
            seen[i],
        )) && (!ended && (holders[i].started_at == 0 || started_at == holders[i].started_at)
            ==> runs(holders[i], seen[i])) && (!ended && holders[i].started_at != 0 && started_at
            != holders[i].started_at ==> !runs(holders[i], seen[i])),
        runs(holders[i], seen[i]) ==> running(holders, seen).contains(holders[i]),
        running(holders, seen).len() <= holders.len(),
    decreases holders.len(),
{
    let n = holders.len() - 1;
    let a = running(holders.drop_last(), seen.drop_last());
    let b = running(holders, seen);
    if i < n {
        assert(holders.drop_last()[i] == holders[i]);
        assert(seen.drop_last()[i] == seen[i]);
        lemma_who_still_runs(holders.drop_last(), seen.drop_last(), i);
        if runs(holders[i], seen[i]) {
            let k = choose|k: int| 0 <= k < a.len() && a[k] == holders[i];
            assert(b[k] == holders[i]);
        }
    } else {
        if n > 0 {
            lemma_who_still_runs(holders.drop_last(), seen.drop_last(), 0);
        }
        if runs(holders[i], seen[i]) {
            assert(b[b.len() - 1] == holders[i]);
        }
    }
}

/// Everyone who was kept was held and runs.
pub proof fn lemma_only_who_runs_is_kept(holders: Seq<HolderInfo>, seen: Seq<Sighting>, k: int)
    requires
        holders.len() == seen.len(),
        0 <= k < running(holders, seen).len(),
    ensures
        exists|i: int|
            0 <= i < holders.len() && #[trigger] holders[i] == running(holders, seen)[k] && runs(
                holders[i],
                seen[i],
            ),
    decreases holders.len(),
{
    if holders.len() > 0 {
        let n = holders.len() - 1;
        let less = holders.drop_last();
        let a = running(less, seen.drop_last());
        if k < a.len() {
            lemma_only_who_runs_is_kept(less, seen.drop_last(), k);
            let i = choose|i: int|
                0 <= i < less.len() && #[trigger] less[i] == a[k] && runs(
                    less[i],
                    seen.drop_last()[i],
                );
            assert(holders[i] == running(holders, seen)[k]);
        } else {
            assert(holders[n] == running(holders, seen)[k]);
        }
    }
}

/// Every application that holds a file is a holder, but for the installer, and
/// is told as it was listed.
pub proof fn lemma_every_other_application_is_a_holder(list: Seq<Application>, own: u32, i: int)
    requires
        0 <= i < list.len(),
        list[i].process_id != own,
    ensures
        exists|k: int|
            0 <= k < holders_in(list, own).len() && (#[trigger] holders_in(list, own)[k]).process_id
                == list[i].process_id && holders_in(list, own)[k].name == list[i].name
                && holders_in(list, own)[k].restartable == list[i].restartable && holders_in(
                list,
                own,
            )[k].started_at == list[i].started_at,
    decreases list.len(),
{
    let before = list.drop_last();
    let a = holders_in(before, own);
    let b = holders_in(list, own);
    if i < before.len() {
        assert(before[i] == list[i]);
        lemma_every_other_application_is_a_holder(before, own, i);
        let k = choose|k: int|
            0 <= k < a.len() && (#[trigger] a[k]).process_id == list[i].process_id && a[k].name
                == list[i].name && a[k].restartable == list[i].restartable && a[k].started_at
                == list[i].started_at;
        assert(b[k] == a[k]);
    } else {
        assert(b[b.len() - 1].process_id == list[i].process_id);
    }
}

/// How freeing the files goes on: nobody is asked where nobody holds them or
/// nobody is there to answer; whoever says no ends the run; and a run goes on
/// when everybody closed, remembering who did.
pub proof fn lemma_how_freeing_goes_on(stage: Stage, happened: Happened, quiet: bool, next: Stage)
    requires
        follows(stage, happened, quiet, next),
    ensures
        stage is Start && happened is Started && happened->Started_0 is Ok ==> next is List,
        stage is List && happened is Listed && happened->Listed_0 is Ok ==> {
            let holders = happened->Listed_0->Ok_0@;
            &&& holders.len() == 0 ==> next is Done
            &&& holders.len() > 0 && quiet ==> next is Close && next->Close_0@ == holders
            &&& holders.len() > 0 && !quiet ==> next is Ask && next->Ask_0@ == holders
        },
        stage is Ask && happened is Answered ==> {
            &&& happened->Answered_0 == Answer::Cancel ==> next is Refused
                && next->Refused_0@.code == "cancelled"@
            &&& happened->Answered_0 == Answer::Close ==> next is Close && next->Close_0@
                == stage->Ask_0@
        },
        stage is Close && happened is Asked ==> next is Wait && next->Wait_0@ == stage->Close_0@,
        stage is Wait && happened is Remaining ==> {
            let left = happened->Remaining_0@;
            &&& left.len() == 0 ==> next is Done && next->Done_0.holders() == stage->Wait_0@
            &&& left.len() > 0 ==> next is Refused && next->Refused_0@.code == "package_in_use"@
        },
        stage is Done || stage is Refused ==> next == stage,
{
}

/// Every file a plan writes over or removes, and every shortcut it rewrites or
/// removes, is at risk where it is there.
pub proof fn lemma_whatever_is_touched_is_at_risk(
    ops: Seq<OpView>,
    root: Seq<char>,
    machine: Machine,
    i: int,
)
    requires
        0 <= i < ops.len(),
    ensures
        ({
            let op = ops[i];
            let list = at_risk(ops, root, machine);
            let at = target::placed_at(root, op.target);
            &&& (op.kind == OpKind::InstallFile || op.kind == OpKind::RemoveFile) && at is Ok && (
            machine.file(at->Ok_0) is Some || !(machine.link(at->Ok_0) is Absent)) ==> exists|
                k: int,
            |
                0 <= k < list.len() && paths::parts(#[trigger] list[k]) == paths::parts(at->Ok_0)
            &&& (op.kind == OpKind::CreateShortcut || op.kind == OpKind::RemoveShortcut) && (
            machine.file(op.target) is Some || !(machine.link(op.target) is Absent)) ==> exists|
                k: int,
            |
                0 <= k < list.len() && paths::parts(#[trigger] list[k]) == paths::parts(op.target)
        }),
    decreases ops.len(),
{
    let before = ops.drop_last();
    let a = at_risk(before, root, machine);
    let b = at_risk(ops, root, machine);
    assert forall|p: Seq<char>| is_listed(a, p) implies #[trigger] is_listed(b, p) by {
        let k = choose|k: int| 0 <= k < a.len() && paths::same_path(#[trigger] a[k], p);
        assert(b[k] == a[k]);
    }
    let op = ops[i];
    if i < before.len() {
        assert(before[i] == ops[i]);
        lemma_whatever_is_touched_is_at_risk(before, root, machine, i);
        let path = match touched(op, root) {
            Some(p) => p,
            None => Seq::empty(),
        };
        if exists|k: int| 0 <= k < a.len() && paths::parts(#[trigger] a[k]) == paths::parts(path) {
            let k = choose|k: int|
                0 <= k < a.len() && paths::parts(#[trigger] a[k]) == paths::parts(path);
            assert(b[k] == a[k]);
        }
    } else {
        match touched(op, root) {
            Some(path) => {
                if is_there(path, machine) {
                    if is_listed(a, path) {
                        let k = choose|k: int|
                            0 <= k < a.len() && paths::same_path(#[trigger] a[k], path);
                        assert(b[k] == a[k]);
                    } else {
                        assert(b[b.len() - 1] == path);
                    }
                }
            },
            None => {},
        }
    }
}

/// Nothing is at risk but what the plan touches and is there, each once.
pub proof fn lemma_nothing_else_is_at_risk(
    ops: Seq<OpView>,
    root: Seq<char>,
    machine: Machine,
    k: int,
)
    requires
        0 <= k < at_risk(ops, root, machine).len(),
    ensures
        ({
            let path = at_risk(ops, root, machine)[k];
            &&& machine.file(path) is Some || !(machine.link(path) is Absent)
            &&& exists|i: int|
                0 <= i < ops.len() && touched(#[trigger] ops[i], root) == Some(path)
            &&& forall|j: int|
                0 <= j < k ==> paths::parts(#[trigger] at_risk(ops, root, machine)[j])
                    != paths::parts(path)
        }),
    decreases ops.len(),
{
    if ops.len() > 0 {
        let before = ops.drop_last();
        let n = ops.len() - 1;
        let a = at_risk(before, root, machine);
        let b = at_risk(ops, root, machine);
        if k < a.len() {
            lemma_nothing_else_is_at_risk(before, root, machine, k);
            let i = choose|i: int|
                0 <= i < before.len() && touched(#[trigger] before[i], root) == Some(a[k]);
            assert(touched(ops[i], root) == Some(b[k]));
            assert forall|j: int| 0 <= j < k implies paths::parts(#[trigger] b[j]) != paths::parts(
                b[k],
            ) by {
                assert(b[j] == a[j]);
            }
        } else {
            assert(touched(ops[n], root) == Some(b[k]));
            assert forall|j: int| 0 <= j < k implies paths::parts(#[trigger] b[j]) != paths::parts(
                b[k],
            ) by {
                assert(b[j] == a[j]);
                assert(!is_listed(a, b[k]));
            }
        }
    }
}

}
