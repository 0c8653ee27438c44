//! Application quiescence a package declares: stopping an application the
//! Restart Manager cannot close, before the Restart Manager is asked, and
//! starting it again once the run is over.
//!
//! The lifecycle is explicit:
//!
//! - **Only what was stopped is resumed.** An application that was not
//!   running stays not running; the stop program's `not_running_codes` are
//!   how it says so.
//! - **A failure past the stop resumes.** The application is started again
//!   before the failure is reported.
//! - **An uninstall stops and never resumes;** a rolled-back uninstall
//!   resumes, because the product is still there.
//! - **A run that leaves its transaction open does not resume:** the
//!   recovery that settles its files is the run that should decide.

use vstd::prelude::*;

use crate::action::definition;
use crate::action::definition::{
    Action, ActionFailurePolicy, ActionOperation, Quiescence, QuiescenceView,
};
use crate::action::launch;
use crate::action::launch::{Captured, Context, Status};
use crate::action::plan;
use crate::error::{Error, ErrorView};
use crate::lists;
use crate::machine::Machine;
use crate::metadata::{Metadata, OptionView};
use crate::plan::target;
use crate::report::documents::{ActionInfo, Event, Outcome};
use crate::report::{finding, Finding, FindingView};
use crate::resource::predicate;
use crate::resource::predicate::Options;
use crate::state::installation::{Owned, OwnedAction};
use crate::state::journal::TxnKind;
use crate::text;

verus! {

/// The finding a stopped application is reported with.
pub const STOPPED: &'static str = "quiescence_stopped";

/// The finding an application that was not running is reported with.
pub const NOT_RUNNING: &'static str = "quiescence_not_running";

/// The finding a resumed application is reported with.
pub const RESUMED: &'static str = "quiescence_resumed";

/// The finding a resume program that could not be started is reported with.
pub const RESUME_FAILED: &'static str = "quiescence_resume_failed";

/// The finding for an application left stopped because the run left its
/// transaction open.
pub const NOT_RESUMED: &'static str = "quiescence_not_resumed";

/// The finding a failed stop program with `on_failure = continue` is
/// reported with.
pub const FAILED_CONTINUED: &'static str = "quiescence_failed_continued";

/// The stable code a failed stop program stops the run with.
pub const FAILED: &'static str = "quiescence_failed";

/// Holds of the entries a run executes: those of its operation whose
/// predicate the options satisfy.
pub open spec fn runs(
    operation: ActionOperation,
    options: Map<Seq<char>, OptionView>,
) -> spec_fn(QuiescenceView) -> bool {
    |q: QuiescenceView| q.run_on.contains(operation) && plan::allowed(q.when, options)
}

/// Holds of the entries a run passes over.
pub open spec fn passed_over(
    operation: ActionOperation,
    options: Map<Seq<char>, OptionView>,
) -> spec_fn(QuiescenceView) -> bool {
    |q: QuiescenceView| !runs(operation, options)(q)
}

/// What the log says of an entry a run passes over.
pub open spec fn why_skipped(operation: ActionOperation) -> spec_fn(QuiescenceView) -> Seq<char> {
    |q: QuiescenceView|
        if !q.run_on.contains(operation) {
            q.name + ": not on "@ + operation.name()
        } else {
            q.name + ": disabled by option "@ + match q.when {
                Some((option, equals)) => option + " = "@ + equals,
                None => ""@,
            }
        }
}

/// The entries one run executes, in declaration order, and what the log says
/// of the others.
#[derive(Debug)]
pub struct Selection {
    pub entries: Vec<Quiescence>,
    pub skipped: Vec<String>,
}

/// Whether a selection is what a run makes of the declared entries.
pub open spec fn selects(
    s: Selection,
    declared: Seq<QuiescenceView>,
    operation: ActionOperation,
    options: Map<Seq<char>, OptionView>,
) -> bool {
    &&& text::views(s.entries@) == declared.filter(runs(operation, options))
    &&& text::views(s.skipped@) == declared.filter(passed_over(operation, options)).map_values(
        why_skipped(operation),
    )
}

fn select(entries: &Vec<Quiescence>, operation: ActionOperation, options: &Options) -> (r:
    Selection)
    ensures
        selects(r, text::views(entries@), operation, options@),
{
    let ghost all = text::views(entries@);
    let ghost o = options@;
    let ghost keep = runs(operation, o);
    let ghost over = passed_over(operation, o);
    let ghost why = why_skipped(operation);
    let mut selected: Vec<Quiescence> = Vec::new();
    let mut skipped: Vec<String> = Vec::new();
    let mut i: usize = 0;
    proof {
        reveal(Seq::filter);
        reveal_strlit("");
        assert(all.take(0) =~= Seq::<QuiescenceView>::empty());
        assert(text::views(selected@) =~= all.take(0).filter(keep));
        assert(text::views(skipped@) =~= all.take(0).filter(over).map_values(why));
    }
    while i < entries.len()
        invariant
            i <= entries@.len(),
            all == text::views(entries@),
            o == options@,
            keep == runs(operation, o),
            over == passed_over(operation, o),
            why == why_skipped(operation),
            text::views(selected@) == all.take(i as int).filter(keep),
            text::views(skipped@) == all.take(i as int).filter(over).map_values(why),
        decreases entries@.len() - i,
    {
        let ghost were = text::views(skipped@);
        proof {
            reveal_strlit("");
            lists::lemma_filter_take(all, keep, i as int);
            lists::lemma_filter_take(all, over, i as int);
            assert(all[i as int] == entries@[i as int]@);
            let seen = all.take(i as int).filter(over);
            assert(seen.push(all[i as int]).map_values(why) =~= seen.map_values(why).push(
                why(all[i as int]),
            ));
        }
        let entry = &entries[i];
        if !definition::runs_on(&entry.run_on, operation) {
            let line = text::cat3(entry.name.as_str(), ": not on ", operation.as_str());
            proof {
                text::lemma_views_push(skipped@, line);
            }
            skipped.push(line);
        } else if !predicate::enabled(entry.when.as_ref(), "", options) {
            let asked = match &entry.when {
                Some(when) => when.describe(),
                None => text::owned(""),
            };
            let line = text::cat3(entry.name.as_str(), ": disabled by option ", asked.as_str());
            proof {
                text::lemma_views_push(skipped@, line);
            }
            skipped.push(line);
        } else {
            let copy = entry.clone();
            proof {
                text::lemma_views_push(selected@, copy);
            }
            selected.push(copy);
        }
        i = i + 1;
    }
    assert(all.take(i as int) =~= all);
    Selection { entries: selected, skipped }
}

/// The entries an installing run executes, in declaration order.
pub fn install_plan(metadata: &Metadata, options: &Options, kind: TxnKind) -> (r: Selection)
    ensures
        selects(r, text::views(metadata.quiescence@), plan::operation_for(kind), options@),
{
    select(&metadata.quiescence, plan::operation_of(kind), options)
}

/// The quiescence entries an installation recorded, in order, or the first
/// definition that does not read.
pub open spec fn recorded(records: Seq<OwnedAction>) -> Result<Seq<QuiescenceView>, ErrorView>
    decreases records.len(),
{
    if records.len() == 0 {
        Ok(Seq::empty())
    } else {
        match recorded(records.drop_last()) {
            Err(e) => Err(e),
            Ok(before) => if !plan::is_quiescence(records.last()) {
                Ok(before)
            } else {
                match definition::quiescence_in(records.last().definition@) {
                    Err(e) => Err(e),
                    Ok(q) => Ok(before.push(q)),
                }
            },
        }
    }
}

proof fn lemma_recorded_fails(records: Seq<OwnedAction>, i: int)
    requires
        0 <= i <= records.len(),
        recorded(records.take(i)) is Err,
    ensures
        recorded(records) == recorded(records.take(i)),
    decreases records.len() - i,
{
    if i < records.len() {
        assert(records.take(i + 1).drop_last() =~= records.take(i));
        lemma_recorded_fails(records, i + 1);
    } else {
        assert(records.take(i) =~= records);
    }
}

/// The entries an uninstall executes: the installation's own, gated by the
/// options it recorded.
pub fn uninstall_plan(owned: &Owned, options: &Options) -> (r: Result<Selection, Error>)
    ensures
        match recorded(owned.actions@) {
            Ok(entries) => (r matches Ok(s) && selects(
                s,
                entries,
                ActionOperation::Uninstall,
                options@,
            )),
            Err(e) => (r matches Err(x) && x@ == e),
        },
{
    let ghost records = owned.actions@;
    let mut entries: Vec<Quiescence> = Vec::new();
    let mut i: usize = 0;
    assert(records.take(0) =~= Seq::<OwnedAction>::empty());
    assert(text::views(entries@) =~= Seq::<QuiescenceView>::empty());
    while i < owned.actions.len()
        invariant
            i <= records.len(),
            records == owned.actions@,
            recorded(records.take(i as int)) == Ok::<Seq<QuiescenceView>, ErrorView>(
                text::views(entries@),
            ),
        decreases records.len() - i,
    {
        assert(records.take(i + 1).drop_last() =~= records.take(i as int));
        assert(records.take(i + 1).last() == records[i as int]);
        if text::same(owned.actions[i].phase.as_str(), "quiesce") {
            match definition::deserialize_quiescence(owned.actions[i].definition.as_str()) {
                Ok(entry) => {
                    proof {
                        text::lemma_views_push(entries@, entry);
                    }
                    entries.push(entry);
                },
                Err(err) => {
                    proof {
                        lemma_recorded_fails(records, i + 1);
                    }
                    return Err(err);
                },
            }
        }
        i = i + 1;
    }
    assert(records.take(i as int) =~= records);
    Ok(select(&entries, ActionOperation::Uninstall, options))
}

/// Where the program of a stop or resume action comes from.
#[derive(Debug)]
pub enum Source {
    /// It is at this path, ready to be run.
    Ready(String),
    /// It is to be extracted from the payload to this path.
    Extract(String),
}

/// What a run without the payload says of a program the store does not hold
/// as recorded.
pub open spec fn not_as_recorded(name: Seq<char>, path: Seq<char>, there: bool) -> ErrorView {
    ErrorView {
        code: if there {
            "action_program_mismatch"@
        } else {
            "action_program_missing"@
        },
        message: "the program of quiescence "@ + name
            + " is not in the state directory as recorded: "@ + path,
    }
}

/// Where the program of a stop or resume action comes from: a command is
/// expanded, a packaged program is in the store with the recorded contents,
/// or it is extracted from the payload — which an uninstall does not have.
pub fn program_of(
    program: &Action,
    state_dir: &str,
    has_payload: bool,
    context: &Context,
    machine: &Machine,
) -> (r: Result<Source, Error>)
    ensures
        ({
            let path = target::joined(
                launch::kept_in(state_dir@, program.sha256@),
                program.file_name@,
            );
            let held = machine.file(path);
            if program.entry@.len() == 0 {
                r matches Ok(Source::Ready(at)) && at@ == launch::expansion(
                    program.command@,
                    context.install_root@,
                    context.version@,
                    *machine,
                )
            } else if held is Some && held->Some_0.sha256@ == program.sha256@ {
                r matches Ok(Source::Ready(at)) && at@ == path
            } else if has_payload {
                r matches Ok(Source::Extract(at)) && at@ == path
            } else {
                r matches Err(e) && e@ == not_as_recorded(program.name@, path, held is Some)
            }
        }),
{
    if !program.is_packaged() {
        return Ok(Source::Ready(launch::expand(program.command.as_str(), context, machine)));
    }
    let path = launch::stored_program(state_dir, program);
    let (there, matching) = match machine.inspect_file(path.as_str()) {
        Some(file) => (true, text::same(file.sha256.as_str(), program.sha256.as_str())),
        None => (false, false),
    };
    if matching {
        return Ok(Source::Ready(path));
    }
    if has_payload {
        return Ok(Source::Extract(path));
    }
    let message = text::cat4(
        "the program of quiescence ",
        program.name.as_str(),
        " is not in the state directory as recorded: ",
        path.as_str(),
    );
    let code = if there {
        "action_program_mismatch"
    } else {
        "action_program_missing"
    };
    Err(Error::new(code, message.as_str()))
}

/// Whether an extracted program is the one the package recorded.
pub fn check_extracted(program: &Action, sha256: &str) -> (r: Result<(), Error>)
    ensures
        r is Ok <==> sha256@ == program.sha256@,
        r matches Err(e) ==> e@ == (ErrorView {
            code: "action_program_mismatch"@,
            message: "the packaged program of quiescence "@ + program.name@ + " has SHA-256 "@
                + sha256@ + ", the package recorded "@ + program.sha256@,
        }),
{
    if text::same(sha256, program.sha256.as_str()) {
        return Ok(());
    }
    let message = text::cat6(
        "the packaged program of quiescence ",
        program.name.as_str(),
        " has SHA-256 ",
        sha256,
        ", the package recorded ",
        program.sha256.as_str(),
    );
    Err(Error::new("action_program_mismatch", message.as_str()))
}

/// A list of codes as the log shows it.
pub open spec fn codes_shown(codes: Seq<i32>) -> Seq<char> {
    "["@ + text::join(definition::code_words(codes), ", "@) + "]"@
}

fn show_codes(codes: &Vec<i32>) -> (r: String)
    ensures
        r@ == codes_shown(codes@),
{
    let ghost all = definition::code_words(codes@);
    let mut words: Vec<String> = Vec::new();
    let mut i: usize = 0;
    while i < codes.len()
        invariant
            i <= codes@.len(),
            all == definition::code_words(codes@),
            words@.len() == i,
            forall|j: int| 0 <= j < i ==> #[trigger] words@[j]@ == all[j],
        decreases codes@.len() - i,
    {
        words.push(text::signed_decimal_of(codes[i] as i64));
        i = i + 1;
    }
    assert(text::views(words@) =~= all);
    let list = text::join_of(&words, ", ");
    text::cat3("[", list.as_str(), "]")
}

/// What the log says when a stop program is about to be started.
pub fn started(entry: &Quiescence, context: &Context, launch: &launch::Launch) -> (r: Event)
    ensures
        r.code@ == "quiescence_started"@,
        r.message@ == entry.name@ + " ("@ + context.operation.name() + "): "@ + (launch::line(
            launch@.program,
            launch@.arguments,
        ) + match launch@.raw_tail {
            Some(tail) => seq![' '] + tail,
            None => Seq::empty(),
        }) + " [timeout "@ + text::decimal(entry.stop.timeout_seconds as nat)
            + " s, on failure "@ + entry.stop.on_failure.name() + ", not running "@ + codes_shown(
            entry.not_running_codes@,
        ) + "]"@,
        r.progress is None,
{
    let run = launch::describe_launch(launch);
    let seconds = text::decimal_of(entry.stop.timeout_seconds as u64);
    let codes = show_codes(&entry.not_running_codes);
    let head = text::cat5(
        entry.name.as_str(),
        " (",
        context.operation.as_str(),
        "): ",
        run.as_str(),
    );
    let middle = text::cat5(
        head.as_str(),
        " [timeout ",
        seconds.as_str(),
        " s, on failure ",
        entry.stop.on_failure.as_str(),
    );
    let message = text::cat4(middle.as_str(), ", not running ", codes.as_str(), "]");
    Event { code: "quiescence_started", message, progress: None }
}

/// What the log says of what a stop program wrote to one stream: its first
/// lines, as many as the log keeps.
pub open spec fn written(name: Seq<char>, stream: Seq<char>, output: Seq<char>) -> Seq<Seq<char>> {
    let lines = text::lines(output);
    let kept = if lines.len() < launch::LOG_LINES {
        lines
    } else {
        lines.take(launch::LOG_LINES as int)
    };
    kept.map_values(|line: Seq<char>| name + " "@ + stream + ": "@ + line)
}

/// What the log says of what a stop program wrote to one stream.
pub fn output(entry: &Quiescence, stream: &str, text: &str) -> (r: Vec<String>)
    ensures
        text::views(r@) == written(entry.name@, stream@, text@),
{
    let lines = text::lines_of(text);
    let ghost all = text::lines(text@);
    let ghost told = written(entry.name@, stream@, text@);
    let mut out: Vec<String> = Vec::new();
    let mut i: usize = 0;
    while i < lines.len() && i < launch::LOG_LINES
        invariant
            i <= lines@.len(),
            i <= launch::LOG_LINES,
            all == text::lines(text@),
            all == text::views(lines@),
            told == written(entry.name@, stream@, text@),
            out@.len() == i,
            forall|j: int| 0 <= j < i ==> #[trigger] out@[j]@ == told[j],
        decreases lines@.len() - i,
    {
        assert(all[i as int] == lines@[i as int]@);
        let head = text::cat4(entry.name.as_str(), " ", stream, ": ");
        out.push(text::cat2(head.as_str(), lines[i].as_str()));
        i = i + 1;
    }
    assert(text::views(out@) =~= told);
    out
}

/// Whether an exit code says that nothing was running.
pub open spec fn nothing_ran(entry: Quiescence, exit_code: Option<i32>) -> bool {
    exit_code matches Some(code) && entry.not_running_codes@.contains(code)
}

/// How a stop ended: a "not running" code is a completed stop that stopped
/// nothing, and everything else is what the stop program's own codes say.
pub open spec fn stop_status(entry: Quiescence, ran: Result<Captured, u64>) -> Status {
    match ran {
        Ok(captured) => if nothing_ran(entry, captured.exit_code) {
            Status::Completed
        } else {
            launch::verdict_on(entry.stop, captured.exit_code)
        },
        Err(_) => Status::LaunchFailed,
    }
}

/// The exit code of a stop program that ran.
pub open spec fn stop_code(ran: Result<Captured, u64>) -> Option<i32> {
    match ran {
        Ok(captured) => captured.exit_code,
        Err(_) => None,
    }
}

/// How one stop ended.
#[derive(Debug, Clone, Copy, PartialEq, Eq, Structural)]
pub enum Ending {
    /// The application was not running: it is owed nothing.
    NotRunning,
    /// The application was running and is stopped: it is owed a restart.
    Stopped,
    /// The stop failed and the run goes on.
    Continued,
    /// The stop failed and the run ends.
    Failed,
}

/// How one stop ended.
pub open spec fn ending(entry: Quiescence, ran: Result<Captured, u64>) -> Ending {
    if nothing_ran(entry, stop_code(ran)) {
        Ending::NotRunning
    } else if stop_status(entry, ran) == Status::Completed {
        Ending::Stopped
    } else if entry.stop.on_failure == ActionFailurePolicy::Continue {
        Ending::Continued
    } else {
        Ending::Failed
    }
}

/// The failure a stop that ends the run ends it with.
pub open spec fn stop_failure(entry: Quiescence, ran: Result<Captured, u64>) -> ErrorView {
    ErrorView {
        code: "quiescence_failed"@,
        message: "quiescence "@ + entry.name@ + ": "@ + launch::ending(
            entry.stop,
            stop_status(entry, ran),
            stop_code(ran),
        ),
    }
}

/// Whether a document describes a stop.
pub open spec fn documents_stop(
    info: ActionInfo,
    entry: Quiescence,
    program: Seq<char>,
    operation: ActionOperation,
    ran: Result<Captured, u64>,
) -> bool {
    let status = stop_status(entry, ran);
    &&& info.name@ == entry.name@
    &&& info.phase@ == "quiesce"@
    &&& info.operation@ == operation.name()
    &&& info.kind@ == entry.stop.kind.name()
    &&& info.program@ == program
    &&& info.status@ == match ending(entry, ran) {
        Ending::NotRunning | Ending::Stopped => "completed"@,
        Ending::Continued => "failed_continued"@,
        Ending::Failed => status.name(),
    }
    &&& info.exit_code == stop_code(ran)
    &&& !info.reboot_required
    &&& info.duration_ms == match ran {
        Ok(captured) => captured.duration_ms,
        Err(elapsed) => elapsed,
    }
    &&& info.timeout_seconds == entry.stop.timeout_seconds
    &&& info.on_failure@ == entry.stop.on_failure.name()
    &&& match info.code {
        None => status == Status::Completed,
        Some(code) => status != Status::Completed && code@ == "quiescence_failed"@,
    }
    &&& launch::is_tail(
        info.stdout@,
        match ran {
            Ok(captured) => captured.stdout@,
            Err(_) => ""@,
        },
    )
    &&& launch::is_tail(
        info.stderr@,
        match ran {
            Ok(captured) => captured.stderr@,
            Err(_) => ""@,
        },
    )
    &&& text::option_view(info.sha256) == if entry.stop.entry@.len() > 0 {
        Some(entry.stop.sha256@)
    } else {
        None
    }
}

/// What the log says of how a stop ended; the failure of a stop that ends the
/// run is told where the run ends.
pub open spec fn stop_told(entry: Quiescence, ran: Result<Captured, u64>, e: Event) -> bool {
    let code = text::signed_decimal(
        match stop_code(ran) {
            Some(code) => code as int,
            None => 0,
        },
    );
    &&& e.progress is None
    &&& match ending(entry, ran) {
        Ending::NotRunning => e.code@ == "quiescence_not_running"@ && e.message@ == entry.name@
            + ": exit code "@ + code + " means nothing was running"@,
        Ending::Stopped => e.code@ == "quiescence_stopped"@ && e.message@ == entry.name@
            + ": stopped (exit code "@ + code + ", "@ + text::decimal(
            ran->Ok_0.duration_ms as nat,
        ) + " ms)"@,
        Ending::Continued => e.code@ == "quiescence_failed_continued"@ && e.message@ == entry.name@
            + ": "@ + launch::ending(entry.stop, stop_status(entry, ran), stop_code(ran)),
        Ending::Failed => e.code@ == "quiescence_failed"@ && e.message@ == entry.name@ + ": "@
            + stop_failure(entry, ran).message,
    }
}

/// What a stop came to.
#[derive(Debug)]
pub struct Stop {
    pub ending: Ending,
    /// The row the journal keeps of the run: how it ended, in a word.
    pub recorded: &'static str,
    pub info: ActionInfo,
    pub event: Event,
    /// The failure of a stop that ends the run.
    pub failure: Option<Error>,
}

/// Judges what a stop program did: what ran with what it produced, or the
/// time it took to find that it could not be started.
pub fn stop_one(
    entry: &Quiescence,
    program: &str,
    operation: ActionOperation,
    ran: &Result<Captured, u64>,
) -> (r: Stop)
    ensures
        r.ending == ending(*entry, *ran),
        r.recorded@ == stop_status(*entry, *ran).name(),
        documents_stop(r.info, *entry, program@, operation, *ran),
        stop_told(*entry, *ran, r.event),
        match r.failure {
            None => r.ending != Ending::Failed,
            Some(e) => r.ending == Ending::Failed && e@ == stop_failure(*entry, *ran),
        },
{
    let stop = &entry.stop;
    let mut verdict = match ran {
        Ok(captured) => launch::judge(stop, captured),
        Err(elapsed) => launch::launch_failed(*elapsed),
    };
    let not_running = match verdict.exit_code {
        Some(code) => lists::has_code(&entry.not_running_codes, code),
        None => false,
    };
    if not_running {
        verdict.status = Status::Completed;
    }
    let completed = matches!(verdict.status, Status::Completed);
    let goes_on = launch::continues(stop, &verdict);
    let why = launch::failure_message(stop, &verdict);
    let code = match verdict.exit_code {
        Some(code) => code as i64,
        None => 0,
    };
    let code = text::signed_decimal_of(code);
    let (end, status, coded) = if not_running {
        (Ending::NotRunning, "completed", None)
    } else if completed {
        (Ending::Stopped, "completed", None)
    } else if goes_on {
        (Ending::Continued, "failed_continued", Some(FAILED))
    } else {
        (Ending::Failed, verdict.status.as_str(), Some(FAILED))
    };
    let mut failure: Option<Error> = None;
    let event = match end {
        Ending::NotRunning => Event {
            code: NOT_RUNNING,
            message: text::cat4(
                entry.name.as_str(),
                ": exit code ",
                code.as_str(),
                " means nothing was running",
            ),
            progress: None,
        },
        Ending::Stopped => {
            let took = text::decimal_of(verdict.duration_ms);
            let message = text::cat6(
                entry.name.as_str(),
                ": stopped (exit code ",
                code.as_str(),
                ", ",
                took.as_str(),
                " ms)",
            );
            Event { code: STOPPED, message, progress: None }
        },
        Ending::Continued => Event {
            code: FAILED_CONTINUED,
            message: text::cat3(entry.name.as_str(), ": ", why.as_str()),
            progress: None,
        },
        Ending::Failed => {
            let said = text::cat4("quiescence ", entry.name.as_str(), ": ", why.as_str());
            let message = text::cat3(entry.name.as_str(), ": ", said.as_str());
            failure = Some(Error::new(FAILED, said.as_str()));
            Event { code: "quiescence_failed", message, progress: None }
        },
    };
    let info = ActionInfo {
        name: entry.name.clone(),
        phase: "quiesce",
        operation: operation.as_str(),
        kind: stop.kind.as_str(),
        program: text::owned(program),
        status,
        exit_code: verdict.exit_code,
        reboot_required: false,
        duration_ms: verdict.duration_ms,
        timeout_seconds: stop.timeout_seconds,
        on_failure: stop.on_failure.as_str(),
        code: coded,
        stdout: launch::tail(verdict.stdout.as_str()),
        stderr: launch::tail(verdict.stderr.as_str()),
        sha256: if stop.is_packaged() {
            Some(stop.sha256.clone())
        } else {
            None
        },
    };
    Stop { ending: end, recorded: verdict.status.as_str(), info, event, failure }
}

/// One entry whose stop program reported the application running and stopped:
/// what the resume must start.
#[derive(Debug)]
pub struct Stopped {
    pub entry: Quiescence,
    /// Resolved at the stop, while the payload is at hand, so that a resume
    /// after a rolled-back transaction does not depend on what the rollback
    /// left.
    pub resume_program: Option<String>,
}

/// What a run stopped, and therefore owes a restart to.
#[derive(Debug)]
pub struct Quiesced {
    pub stopped: Vec<Stopped>,
    /// Everything the stop programs produced, for the outcome document.
    pub actions: Vec<ActionInfo>,
    pub findings: Vec<Finding>,
    pub settled: bool,
}

/// The finding a stop leaves.
pub open spec fn stop_finding(name: Seq<char>, end: Ending) -> Seq<FindingView> {
    match end {
        Ending::NotRunning => seq![finding("quiescence_not_running"@, name)],
        Ending::Stopped => seq![finding("quiescence_stopped"@, name)],
        Ending::Continued => seq![finding("quiescence_failed_continued"@, name)],
        Ending::Failed => Seq::empty(),
    }
}

/// What starting one resume program came to: the process it started, or why
/// it could not be started, and the milliseconds it took.
#[derive(Debug)]
pub struct Resumption {
    pub result: Result<u32, String>,
    pub duration_ms: u64,
}

/// The finding a resume leaves: none where the entry has no resume program.
pub open spec fn resume_finding(s: Stopped, r: Resumption) -> Seq<FindingView> {
    if s.entry.resume is None || s.resume_program is None {
        Seq::empty()
    } else if r.result is Ok {
        seq![finding("quiescence_resumed"@, s.entry.name@)]
    } else {
        seq![finding("quiescence_resume_failed"@, s.entry.name@)]
    }
}

/// The findings several resumes leave.
pub open spec fn resume_findings(stopped: Seq<Stopped>, ran: Seq<Resumption>) -> Seq<FindingView>
    decreases stopped.len(),
{
    if stopped.len() == 0 || ran.len() == 0 {
        Seq::empty()
    } else {
        resume_findings(stopped.drop_last(), ran.drop_last()) + resume_finding(
            stopped.last(),
            ran.last(),
        )
    }
}

/// Whether a stopped entry has a resume program to start.
pub open spec fn is_resumable(s: Stopped) -> bool {
    s.entry.resume is Some && s.resume_program is Some
}

/// Which of the stopped entries have a resume program to start, in the order
/// they were stopped.
pub open spec fn to_start(stopped: Seq<Stopped>) -> Seq<usize>
    decreases stopped.len(),
{
    if stopped.len() == 0 {
        Seq::empty()
    } else if is_resumable(stopped.last()) {
        to_start(stopped.drop_last()).push((stopped.len() - 1) as usize)
    } else {
        to_start(stopped.drop_last())
    }
}

/// Whether documents describe the resumes of the stopped, one for each that
/// has a resume program, in their order.
pub open spec fn document_resumes(
    infos: Seq<ActionInfo>,
    stopped: Seq<Stopped>,
    operation: ActionOperation,
    ran: Seq<Resumption>,
) -> bool
    decreases stopped.len(),
{
    if stopped.len() == 0 || ran.len() == 0 {
        infos.len() == 0
    } else if is_resumable(stopped.last()) {
        &&& infos.len() > 0
        &&& documents_resume(infos.last(), stopped.last(), operation, ran.last())
        &&& document_resumes(infos.drop_last(), stopped.drop_last(), operation, ran.drop_last())
    } else {
        document_resumes(infos, stopped.drop_last(), operation, ran.drop_last())
    }
}

/// Whether a document describes a resume.
pub open spec fn documents_resume(
    info: ActionInfo,
    s: Stopped,
    operation: ActionOperation,
    r: Resumption,
) -> bool {
    &&& s.entry.resume matches Some(resume)
    &&& s.resume_program matches Some(program)
    &&& info.name@ == s.entry.name@
    &&& info.phase@ == "resume"@
    &&& info.operation@ == operation.name()
    &&& info.kind@ == resume.kind.name()
    &&& info.program@ == program@
    &&& info.exit_code is None
    &&& !info.reboot_required
    &&& info.duration_ms == r.duration_ms
    &&& info.timeout_seconds == 0
    &&& info.on_failure@ == "continue"@
    &&& info.stdout@ == ""@
    &&& info.stderr@ == ""@
    &&& text::option_view(info.sha256) == if resume.entry@.len() > 0 {
        Some(resume.sha256@)
    } else {
        None
    }
    &&& match r.result {
        Ok(_) => info.status@ == "completed"@ && info.code is None,
        Err(_) => info.status@ == "launch_failed"@ && (info.code matches Some(code) && code@
            == "quiescence_resume_failed"@),
    }
}

/// What the log says of a resume: nothing of one whose program is not there.
pub open spec fn resume_told(s: Stopped, shown: Seq<char>, r: Resumption, e: Option<Event>) -> bool {
    if s.entry.resume is None {
        e matches Some(e) && e.progress is None && e.code@ == "quiescence_no_resume"@ && e.message@
            == s.entry.name@ + ": no resume program declared"@
    } else if s.resume_program is None {
        e is None
    } else {
        match r.result {
            Ok(pid) => e matches Some(e) && e.progress is None && e.code@ == "quiescence_resumed"@
                && e.message@ == s.entry.name@ + ": started "@ + shown + " (pid "@ + text::decimal(pid as nat)
                + ")"@,
            Err(why) => e matches Some(e) && e.progress is None && e.code@
                == "quiescence_resume_failed"@ && e.message@ == s.entry.name@ + ": "@ + why@,
        }
    }
}

/// Judges what starting one resume program came to.
pub fn resume_one(s: &Stopped, operation: ActionOperation, r: &Resumption) -> (d: Option<
    (ActionInfo, Finding),
>)
    ensures
        match d {
            None => resume_finding(*s, *r) == Seq::<FindingView>::empty() && (s.entry.resume is None
                || s.resume_program is None),
            Some((info, found)) => documents_resume(info, *s, operation, *r) && resume_finding(
                *s,
                *r,
            ) == seq![found@],
        },
{
    let resume = match &s.entry.resume {
        Some(resume) => resume,
        None => {
            return None;
        },
    };
    let program = match &s.resume_program {
        Some(program) => program,
        None => {
            return None;
        },
    };
    let (status, code, found) = match &r.result {
        Ok(_) => ("completed", None, RESUMED),
        Err(_) => ("launch_failed", Some(RESUME_FAILED), RESUME_FAILED),
    };
    let info = ActionInfo {
        name: s.entry.name.clone(),
        phase: "resume",
        operation: operation.as_str(),
        kind: resume.kind.as_str(),
        program: program.clone(),
        status,
        exit_code: None,
        reboot_required: false,
        duration_ms: r.duration_ms,
        timeout_seconds: 0,
        on_failure: "continue",
        code,
        stdout: text::owned(""),
        stderr: text::owned(""),
        sha256: if resume.is_packaged() {
            Some(resume.sha256.clone())
        } else {
            None
        },
    };
    Some((info, Finding::named(found, s.entry.name.as_str())))
}

/// What the log says of a resume; `shown` is the launch in words.
pub fn resume_event(s: &Stopped, shown: &str, r: &Resumption) -> (e: Option<Event>)
    ensures
        resume_told(*s, shown@, *r, e),
{
    if s.entry.resume.is_none() {
        return Some(
            Event {
                code: "quiescence_no_resume",
                message: text::cat2(s.entry.name.as_str(), ": no resume program declared"),
                progress: None,
            },
        );
    }
    if s.resume_program.is_none() {
        return None;
    }
    match &r.result {
        Ok(pid) => {
            let pid = text::decimal_of(*pid as u64);
            let message = text::cat6(
                s.entry.name.as_str(),
                ": started ",
                shown,
                " (pid ",
                pid.as_str(),
                ")",
            );
            Some(Event { code: RESUMED, message, progress: None })
        },
        Err(why) => Some(
            Event {
                code: RESUME_FAILED,
                message: text::cat3(s.entry.name.as_str(), ": ", why.as_str()),
                progress: None,
            },
        ),
    }
}

/// Judges what starting the resume programs of the stopped came to.
fn resume_all(stopped: &Vec<Stopped>, operation: ActionOperation, ran: &Vec<Resumption>) -> (r: (
    Vec<ActionInfo>,
    Vec<Finding>,
))
    requires
        ran@.len() == stopped@.len(),
    ensures
        document_resumes(r.0@, stopped@, operation, ran@),
        text::views(r.1@) == resume_findings(stopped@, ran@),
{
    let mut infos: Vec<ActionInfo> = Vec::new();
    let mut findings: Vec<Finding> = Vec::new();
    let mut i: usize = 0;
    assert(text::views(findings@) =~= Seq::<FindingView>::empty());
    while i < stopped.len()
        invariant
            i <= stopped@.len() == ran@.len(),
            document_resumes(infos@, stopped@.take(i as int), operation, ran@.take(i as int)),
            text::views(findings@) == resume_findings(
                stopped@.take(i as int),
                ran@.take(i as int),
            ),
        decreases stopped@.len() - i,
    {
        let ghost before = infos@;
        let ghost found = text::views(findings@);
        proof {
            assert(stopped@.take(i + 1).drop_last() =~= stopped@.take(i as int));
            assert(ran@.take(i + 1).drop_last() =~= ran@.take(i as int));
            assert(found + Seq::<FindingView>::empty() =~= found);
        }
        match resume_one(&stopped[i], operation, &ran[i]) {
            Some((info, noted)) => {
                proof {
                    text::lemma_views_push(findings@, noted);
                    assert(found.push(noted@) =~= found + seq![noted@]);
                    assert(before.push(info).drop_last() =~= before);
                }
                infos.push(info);
                findings.push(noted);
            },
            None => {},
        }
        i = i + 1;
    }
    assert(stopped@.take(i as int) =~= stopped@);
    assert(ran@.take(i as int) =~= ran@);
    (infos, findings)
}

/// What comes after one stop.
#[derive(Debug)]
pub enum Stopping {
    /// The next entry is to be stopped, or the run goes on.
    GoOn,
    /// The stop failed. Everything stopped before it is to be started again —
    /// these, of what was stopped — and the failure is reported then.
    ResumeFirst { starts: Vec<usize>, failure: Error },
}

/// What the log says of a stop that ended the run.
pub fn failed_event(entry: &Quiescence, failure: &Error) -> (r: Event)
    ensures
        r.code@ == "quiescence_failed"@,
        r.message@ == entry.name@ + ": "@ + failure.message@,
        r.progress is None,
{
    let message = text::cat3(entry.name.as_str(), ": ", failure.message.as_str());
    Event { code: "quiescence_failed", message, progress: None }
}

/// What a run owes the applications it stopped, once its outcome is known.
#[derive(Debug, Clone, Copy, PartialEq, Eq, Structural)]
pub enum Settlement {
    /// Nothing was stopped.
    Nothing,
    /// The transaction is still open: they stay stopped.
    LeaveStopped,
    /// They are started again.
    Resume,
    /// The product is gone: there is nothing to start.
    Forget,
}

/// Whether an outcome leaves its transaction open.
pub open spec fn transaction_open(outcome: Outcome) -> bool {
    outcome.transaction matches Some(t) && t.state@ != "committed"@ && t.state@ != "rolled_back"@
}

/// Whether the product is on the machine after an outcome. An uninstall that
/// committed reports `installed` until its caller renames the outcome, so the
/// kind of run says what a commit meant.
pub open spec fn product_present(outcome: Outcome, uninstall: bool) -> bool {
    !(uninstall && outcome.outcome@ == "installed"@) && outcome.outcome@ != "uninstalled"@
}

/// What a run owes the applications it stopped.
pub open spec fn settlement(stopped_anything: bool, outcome: Outcome, uninstall: bool) -> Settlement {
    if !stopped_anything {
        Settlement::Nothing
    } else if transaction_open(outcome) {
        Settlement::LeaveStopped
    } else if product_present(outcome, uninstall) {
        Settlement::Resume
    } else {
        Settlement::Forget
    }
}

/// The finding an application left stopped is reported with.
pub open spec fn left_stopped() -> spec_fn(Stopped) -> FindingView {
    |s: Stopped| finding("quiescence_not_resumed"@, s.entry.name@)
}

/// Whether what comes after a stop is to start everything stopped before it
/// again, and then to report this failure.
pub open spec fn resumes_first(r: Stopping, stopped: Seq<Stopped>, e: Error) -> bool {
    r matches Stopping::ResumeFirst { starts, failure } && starts@ == to_start(stopped) && failure
        == e
}

impl Quiesced {
    /// Nothing was stopped, nothing is owed.
    pub fn none() -> (r: Quiesced)
        ensures
            r.stopped@.len() == 0,
            r.actions@.len() == 0,
            r.findings@.len() == 0,
            r.settled,
    {
        Quiesced {
            stopped: Vec::new(),
            actions: Vec::new(),
            findings: Vec::new(),
            settled: true,
        }
    }

    /// A run about to stop some entries.
    pub fn starting(entries: &Vec<Quiescence>) -> (r: Quiesced)
        ensures
            r.stopped@.len() == 0,
            r.actions@.len() == 0,
            r.findings@.len() == 0,
            r.settled == (entries@.len() == 0),
    {
        Quiesced {
            stopped: Vec::new(),
            actions: Vec::new(),
            findings: Vec::new(),
            settled: entries.len() == 0,
        }
    }

    /// Whether anything was stopped.
    pub fn stopped_anything(&self) -> (r: bool)
        ensures
            r == (self.stopped@.len() > 0),
    {
        self.stopped.len() > 0
    }

    /// Takes in what the stop of one entry came to; `resume_program` is the
    /// program that starts it again, resolved. A failure ends the run, after
    /// what is already stopped has been resumed.
    pub fn quiesce(
        &mut self,
        entry: &Quiescence,
        stop: Stop,
        resume_program: Result<Option<String>, Error>,
    ) -> (r: Result<(), Error>)
        requires
            stop.failure is Some <==> stop.ending == Ending::Failed,
        ensures
            final(self).settled == old(self).settled,
            final(self).actions@ == old(self).actions@.push(stop.info),
            text::views(final(self).findings@) == text::views(old(self).findings@) + stop_finding(
                entry.name@,
                stop.ending,
            ),
            match (stop.ending, resume_program) {
                (Ending::Stopped, Ok(program)) => {
                    &&& r is Ok
                    &&& final(self).stopped@.len() == old(self).stopped@.len() + 1
                    &&& final(self).stopped@.drop_last() == old(self).stopped@
                    &&& final(self).stopped@.last().entry@ == entry@
                    &&& final(self).stopped@.last().resume_program == program
                },
                (Ending::Stopped, Err(e)) => r == Err::<(), Error>(e) && final(self).stopped@
                    == old(self).stopped@,
                (Ending::Failed, _) => r == Err::<(), Error>(stop.failure->Some_0) && final(self).stopped@ == old(self).stopped@,
                _ => r is Ok && final(self).stopped@ == old(self).stopped@,
            },
    {
        let Stop { ending: end, recorded: _, info, event: _, failure } = stop;
        self.actions.push(info);
        let code = match end {
            Ending::NotRunning => NOT_RUNNING,
            Ending::Stopped => STOPPED,
            Ending::Continued => FAILED_CONTINUED,
            Ending::Failed => {
                assert(text::views(self.findings@) =~= text::views(old(self).findings@)
                    + Seq::<FindingView>::empty());
                match failure {
                    Some(failure) => {
                        return Err(failure);
                    },
                    None => {
                        return Ok(());
                    },
                }
            },
        };
        let found = Finding::named(code, entry.name.as_str());
        proof {
            text::lemma_views_push(self.findings@, found);
        }
        self.findings.push(found);
        if matches!(end, Ending::Stopped) {
            let resume_program = resume_program?;
            self.stopped.push(Stopped { entry: entry.clone(), resume_program });
            assert(self.stopped@.drop_last() =~= old(self).stopped@);
        }
        Ok(())
    }

    /// Which of the stopped are to be started again when the run fails, in the
    /// order they were stopped.
    pub fn starts(&self) -> (r: Vec<usize>)
        ensures
            r@ == to_start(self.stopped@),
    {
        let ghost all = self.stopped@;
        let mut out: Vec<usize> = Vec::new();
        let mut i: usize = 0;
        while i < self.stopped.len()
            invariant
                i <= all.len(),
                all == self.stopped@,
                out@ == to_start(all.take(i as int)),
            decreases all.len() - i,
        {
            assert(all.take(i + 1).drop_last() =~= all.take(i as int));
            if self.stopped[i].entry.resume.is_some() && self.stopped[i].resume_program.is_some() {
                out.push(i);
            }
            i = i + 1;
        }
        assert(all.take(i as int) =~= all);
        out
    }

    /// Takes in what stopping one entry came to, from having its program on: a
    /// failure anywhere ends the run, and what was stopped before it is
    /// started again first.
    pub fn stop(
        &mut self,
        entry: &Quiescence,
        came: Result<(Stop, Result<Option<String>, Error>), Error>,
    ) -> (r: Stopping)
        requires
            came matches Ok((stop, _)) ==> (stop.failure is Some <==> stop.ending
                == Ending::Failed),
        ensures
            final(self).settled == old(self).settled,
            match came {
                Err(e) => *final(self) == *old(self) && resumes_first(r, old(self).stopped@, e),
                Ok((stop, resume_program)) => {
                    &&& final(self).actions@ == old(self).actions@.push(stop.info)
                    &&& text::views(final(self).findings@) == text::views(old(self).findings@)
                        + stop_finding(entry.name@, stop.ending)
                    &&& match (stop.ending, resume_program) {
                        (Ending::Stopped, Ok(program)) => {
                            &&& r is GoOn
                            &&& final(self).stopped@.len() == old(self).stopped@.len() + 1
                            &&& final(self).stopped@.drop_last() == old(self).stopped@
                            &&& final(self).stopped@.last().entry@ == entry@
                            &&& final(self).stopped@.last().resume_program == program
                        },
                        (Ending::Stopped, Err(e)) => final(self).stopped@ == old(self).stopped@
                            && resumes_first(r, old(self).stopped@, e),
                        (Ending::Failed, _) => final(self).stopped@ == old(self).stopped@
                            && resumes_first(r, old(self).stopped@, stop.failure->Some_0),
                        _ => r is GoOn && final(self).stopped@ == old(self).stopped@,
                    }
                },
            },
    {
        let failure = match came {
            Err(e) => e,
            Ok((stop, resume_program)) => {
                match self.quiesce(entry, stop, resume_program) {
                    Ok(()) => {
                        return Stopping::GoOn;
                    },
                    Err(e) => e,
                }
            },
        };
        Stopping::ResumeFirst { starts: self.starts(), failure }
    }

    /// What is owed once the outcome of the run is known: what was stopped is
    /// resumed when the product is on the machine to run — the run installed,
    /// or rolled back to what was there — and never after an uninstall that
    /// completed or a run that left its transaction open.
    pub fn owed(&self, outcome: &Outcome, uninstall: bool) -> (r: Settlement)
        ensures
            r == settlement(self.stopped@.len() > 0, *outcome, uninstall),
    {
        if !self.stopped_anything() {
            return Settlement::Nothing;
        }
        let open = match &outcome.transaction {
            Some(t) => !text::same(t.state, "committed") && !text::same(t.state, "rolled_back"),
            None => false,
        };
        let gone = (uninstall && text::same(outcome.outcome, "installed")) || text::same(
            outcome.outcome,
            "uninstalled",
        );
        if open {
            Settlement::LeaveStopped
        } else if !gone {
            Settlement::Resume
        } else {
            Settlement::Forget
        }
    }

    /// Records the start of the resume program of everything stopped; `ran`
    /// says of each what it came to. What was resumed is forgotten.
    pub fn resume(&mut self, operation: ActionOperation, ran: &Vec<Resumption>)
        requires
            ran@.len() == old(self).stopped@.len(),
        ensures
            final(self).settled,
            final(self).stopped@.len() == 0,
            text::views(final(self).findings@) == text::views(old(self).findings@)
                + resume_findings(old(self).stopped@, ran@),
            old(self).actions@.is_prefix_of(final(self).actions@),
            document_resumes(
                final(self).actions@.skip(old(self).actions@.len() as int),
                old(self).stopped@,
                operation,
                ran@,
            ),
    {
        let (mut infos, mut findings) = resume_all(&self.stopped, operation, ran);
        let ghost had = self.actions@;
        let ghost more = infos@;
        proof {
            text::lemma_views_concat(self.findings@, findings@);
        }
        self.actions.append(&mut infos);
        self.findings.append(&mut findings);
        assert(self.actions@.skip(had.len() as int) =~= more);
        assert(self.actions@.take(had.len() as int) =~= had);
        self.stopped = Vec::new();
        self.settled = true;
    }

    /// Forgets what was stopped, with a finding for each where it stays
    /// stopped because the transaction is still open.
    pub fn forget(&mut self, still_open: bool)
        ensures
            final(self).settled,
            final(self).stopped@.len() == 0,
            final(self).actions@ == old(self).actions@,
            text::views(final(self).findings@) == text::views(old(self).findings@)
                + if still_open {
                old(self).stopped@.map_values(left_stopped())
            } else {
                Seq::empty()
            },
    {
        let ghost stopped = self.stopped@;
        let ghost found = text::views(self.findings@);
        if still_open {
            let mut i: usize = 0;
            assert(text::views(self.findings@) =~= found + stopped.take(0).map_values(
                left_stopped(),
            ));
            while i < self.stopped.len()
                invariant
                    i <= stopped.len(),
                    stopped == self.stopped@,
                    self.actions@ == old(self).actions@,
                    text::views(self.findings@) == found + stopped.take(i as int).map_values(
                        left_stopped(),
                    ),
                decreases stopped.len() - i,
            {
                let noted = Finding::named(NOT_RESUMED, self.stopped[i].entry.name.as_str());
                proof {
                    text::lemma_views_push(self.findings@, noted);
                    assert(stopped.take(i + 1).map_values(left_stopped()) =~= stopped.take(
                        i as int,
                    ).map_values(left_stopped()).push(noted@));
                }
                self.findings.push(noted);
                assert(text::views(self.findings@) =~= found + stopped.take(i + 1).map_values(
                    left_stopped(),
                ));
                i = i + 1;
            }
            assert(stopped.take(i as int) =~= stopped);
        } else {
            assert(found =~= found + Seq::<FindingView>::empty());
        }
        self.stopped = Vec::new();
        self.settled = true;
    }

    /// Settles what the run owes once its outcome is known — `ran` says what
    /// starting each resume program came to, where they are owed — and appends
    /// the evidence to the outcome.
    pub fn settle(
        self,
        outcome: &mut Outcome,
        uninstall: bool,
        operation: ActionOperation,
        ran: &Vec<Resumption>,
    )
        requires
            settlement(self.stopped@.len() > 0, *old(outcome), uninstall) == Settlement::Resume
                ==> ran@.len() == self.stopped@.len(),
        ensures
            (old(outcome).actions@ + self.actions@).is_prefix_of(final(outcome).actions@),
            text::views(final(outcome).findings@) == text::views(old(outcome).findings@)
                + text::views(self.findings@) + match settlement(
                self.stopped@.len() > 0,
                *old(outcome),
                uninstall,
            ) {
                Settlement::Resume => resume_findings(self.stopped@, ran@),
                Settlement::LeaveStopped => self.stopped@.map_values(left_stopped()),
                _ => Seq::empty(),
            },
            settlement(self.stopped@.len() > 0, *old(outcome), uninstall) == Settlement::Resume
                ==> document_resumes(
                final(outcome).actions@.skip(
                    (old(outcome).actions@.len() + self.actions@.len()) as int,
                ),
                self.stopped@,
                operation,
                ran@,
            ),
            settlement(self.stopped@.len() > 0, *old(outcome), uninstall) != Settlement::Resume
                ==> final(outcome).actions@ == old(outcome).actions@ + self.actions@,
            *final(outcome) == (Outcome {
                actions: final(outcome).actions,
                findings: final(outcome).findings,
                ..*old(outcome)
            }),
    {
        let ghost given = self;
        let mut quiesced = self;
        match quiesced.owed(outcome, uninstall) {
            Settlement::Nothing => {},
            Settlement::LeaveStopped => quiesced.forget(true),
            Settlement::Forget => quiesced.forget(false),
            Settlement::Resume => quiesced.resume(operation, ran),
        }
        let ghost more = quiesced.findings@;
        proof {
            text::lemma_views_concat(outcome.findings@, more);
        }
        let ghost acted = quiesced.actions@;
        outcome.actions.append(&mut quiesced.actions);
        outcome.findings.append(&mut quiesced.findings);
        proof {
            assert(outcome.actions@ =~= old(outcome).actions@ + acted);
            assert(outcome.actions@.skip(
                (old(outcome).actions@.len() + given.actions@.len()) as int,
            ) =~= acted.skip(given.actions@.len() as int));
            let base = text::views(old(outcome).findings@);
            assert(text::views(outcome.findings@) =~= base + text::views(more));
            let tail = match settlement(given.stopped@.len() > 0, *old(outcome), uninstall) {
                Settlement::Resume => resume_findings(given.stopped@, ran@),
                Settlement::LeaveStopped => given.stopped@.map_values(left_stopped()),
                _ => Seq::empty(),
            };
            assert(text::views(more) =~= text::views(given.findings@) + tail);
            assert(text::views(outcome.findings@) =~= base + text::views(given.findings@) + tail);
        }
    }
}

/// Only what was stopped is resumed: an entry whose stop said that nothing
/// was running, or that failed, is owed nothing.
pub proof fn lemma_only_what_was_stopped_is_owed(entry: Quiescence, ran: Result<Captured, u64>)
    ensures
        ending(entry, ran) == Ending::Stopped <==> (ran matches Ok(captured) && !nothing_ran(
            entry,
            captured.exit_code,
        ) && launch::verdict_on(entry.stop, captured.exit_code) == Status::Completed),
{
}

/// An uninstall that completed never resumes; a run that leaves its
/// transaction open never resumes; every other end of a run that stopped
/// something resumes.
pub proof fn lemma_when_the_stopped_are_resumed(outcome: Outcome, uninstall: bool)
    ensures
        transaction_open(outcome) ==> settlement(true, outcome, uninstall) != Settlement::Resume,
        uninstall && outcome.outcome@ == "installed"@ ==> settlement(true, outcome, uninstall)
            != Settlement::Resume,
        uninstall && !transaction_open(outcome) && outcome.outcome@ != "installed"@
            && outcome.outcome@ != "uninstalled"@ ==> settlement(true, outcome, uninstall)
            == Settlement::Resume,
        !uninstall && !transaction_open(outcome) && outcome.outcome@ != "uninstalled"@
            ==> settlement(true, outcome, uninstall) == Settlement::Resume,
        settlement(false, outcome, uninstall) == Settlement::Nothing,
{
}

proof fn lemma_to_start(stopped: Seq<Stopped>, i: int)
    requires
        0 <= i < stopped.len() <= usize::MAX,
        is_resumable(stopped[i]),
    ensures
        to_start(stopped).contains(i as usize),
    decreases stopped.len(),
{
    let init = stopped.drop_last();
    if i < init.len() {
        lemma_to_start(init, i);
        let k = choose|k: int| 0 <= k < to_start(init).len() && to_start(init)[k] == i as usize;
        assert(to_start(stopped)[k] == i as usize);
    } else {
        assert(to_start(stopped).last() == i as usize);
    }
}

/// A failure past a stop resumes: whatever made a stop fail, every application
/// stopped before it that has a resume program is among those started again
/// before the failure is reported.
pub proof fn lemma_a_failed_stop_leaves_nothing_stopped(
    r: Stopping,
    stopped: Seq<Stopped>,
    e: Error,
    i: int,
)
    requires
        resumes_first(r, stopped, e),
        0 <= i < stopped.len() <= usize::MAX,
        is_resumable(stopped[i]),
    ensures
        r->starts@.contains(i as usize),
        r->failure == e,
{
    lemma_to_start(stopped, i);
}

/// Which programs are stopped: those declared for the run whose condition is
/// met; the others are told as left out.
pub proof fn lemma_which_programs_are_stopped(
    s: Selection,
    declared: Seq<QuiescenceView>,
    operation: ActionOperation,
    options: Map<Seq<char>, OptionView>,
    i: int,
)
    requires
        selects(s, declared, operation, options),
        0 <= i < declared.len(),
    ensures
        ({
            let q = declared[i];
            let met = q.when matches Some((option, equals)) ==> options.dom().contains(
                text::lower(option),
            ) && options[text::lower(option)].text() == equals;
            let due = q.run_on.contains(operation) && met;
            &&& text::views(s.entries@).contains(q) <==> due
            &&& s.entries@.len() + s.skipped@.len() == declared.len()
        }),
{
    let on = runs(operation, options);
    let off = passed_over(operation, options);
    let q = declared[i];
    if on(q) {
        lists::lemma_filter_holds(declared, on, i);
    }
    if declared.filter(on).contains(q) {
        let k = choose|k: int| 0 <= k < declared.filter(on).len() && declared.filter(on)[k] == q;
        lists::lemma_filter_from(declared, on, k);
    }
    lemma_chosen_or_left_out(declared, operation, options);
    assert(text::views(s.entries@).len() == s.entries@.len());
    assert(text::views(s.skipped@).len() == s.skipped@.len());
}

proof fn lemma_chosen_or_left_out(
    declared: Seq<QuiescenceView>,
    operation: ActionOperation,
    options: Map<Seq<char>, OptionView>,
)
    ensures
        declared.filter(runs(operation, options)).len() + declared.filter(
            passed_over(operation, options),
        ).len() == declared.len(),
    decreases declared.len(),
{
    reveal(Seq::filter);
    if declared.len() > 0 {
        lemma_chosen_or_left_out(declared.drop_last(), operation, options);
    }
}

/// What stopping a program comes to: a code that says nothing was running
/// leaves nothing to start again; a stop that failed ends the run unless it
/// may go on.
pub proof fn lemma_what_stopping_comes_to(entry: Quiescence, ran: Result<Captured, u64>)
    ensures
        ({
            let e = ending(entry, ran);
            let idle = ran matches Ok(c) && (c.exit_code matches Some(code)
                && entry.not_running_codes@.contains(code));
            let done = ran matches Ok(c) && launch::verdict_on(entry.stop, c.exit_code)
                == Status::Completed;
            &&& e == Ending::NotRunning <==> idle
            &&& e == Ending::Stopped <==> !idle && done
            &&& e == Ending::Continued <==> !idle && !done && entry.stop.on_failure
                == ActionFailurePolicy::Continue
            &&& e == Ending::Failed <==> !idle && !done && entry.stop.on_failure
                != ActionFailurePolicy::Continue
        }),
{
}

/// Everything that was stopped and can be started is started again, in the
/// order it was stopped, and nothing else.
pub proof fn lemma_what_is_started_again(stopped: Seq<Stopped>, i: int)
    requires
        0 <= i < stopped.len() <= usize::MAX,
    ensures
        to_start(stopped).contains(i as usize) <==> stopped[i].entry.resume is Some
            && stopped[i].resume_program is Some,
        forall|k: int| 0 <= k < to_start(stopped).len() ==> (#[trigger] to_start(stopped)[k])
            < stopped.len(),
        forall|j: int, k: int|
            0 <= j < k < to_start(stopped).len() ==> (#[trigger] to_start(stopped)[j]) < (
            #[trigger] to_start(stopped)[k]),
    decreases stopped.len(),
{
    let before = stopped.drop_last();
    let n = stopped.len() - 1;
    let a = to_start(before);
    let b = to_start(stopped);
    if before.len() > 0 {
        let m = if i < n {
            i
        } else {
            0
        };
        lemma_what_is_started_again(before, m);
    }
    assert(forall|k: int| 0 <= k < a.len() ==> (#[trigger] a[k]) < n);
    if i < n {
        assert(before[i] == stopped[i]);
        if a.contains(i as usize) {
            let k = choose|k: int| 0 <= k < a.len() && a[k] == i as usize;
            assert(b[k] == i as usize);
        }
        if b.contains(i as usize) {
            let k = choose|k: int| 0 <= k < b.len() && b[k] == i as usize;
            if k < a.len() {
                assert(a[k] == i as usize);
            }
        }
    } else {
        if is_resumable(stopped.last()) {
            assert(b[b.len() - 1] == i as usize);
        }
        if b.contains(i as usize) && !is_resumable(stopped.last()) {
            let k = choose|k: int| 0 <= k < b.len() && b[k] == i as usize;
            assert(a[k] < n);
        }
    }
}

/// What is reported of a stop: how it ended, under the entry's name, unless it
/// ends the run.
pub proof fn lemma_what_a_stop_reports(name: Seq<char>, end: Ending)
    ensures
        ({
            let f = stop_finding(name, end);
            &&& end == Ending::Failed <==> f.len() == 0
            &&& f.len() > 0 ==> f.len() == 1 && f[0].path == Some(name)
            &&& end == Ending::NotRunning ==> f[0].code == "quiescence_not_running"@
            &&& end == Ending::Stopped ==> f[0].code == "quiescence_stopped"@
            &&& end == Ending::Continued ==> f[0].code == "quiescence_failed_continued"@
        }),
{
}

/// What is written of a stop that was tried.
pub proof fn lemma_what_is_written_of_a_stop(
    info: ActionInfo,
    entry: Quiescence,
    program: Seq<char>,
    operation: ActionOperation,
    ran: Result<Captured, u64>,
)
    requires
        documents_stop(info, entry, program, operation, ran),
    ensures
        info.name@ == entry.name@,
        info.phase@ == "quiesce"@,
        info.program@ == program,
        info.operation@ == operation.name(),
        ending(entry, ran) == Ending::Stopped || ending(entry, ran) == Ending::NotRunning
            ==> info.status@ == "completed"@ && info.code is None,
        ending(entry, ran) == Ending::Continued ==> info.status@ == "failed_continued"@ && info.code
            is Some,
        ending(entry, ran) == Ending::Failed ==> info.code is Some && info.code->Some_0@
            == "quiescence_failed"@,
        ran matches Ok(c) ==> info.exit_code == c.exit_code && info.duration_ms == c.duration_ms,
        ran matches Err(elapsed) ==> info.exit_code is None && info.duration_ms == elapsed,
        info.timeout_seconds == entry.stop.timeout_seconds,
        !info.reboot_required,
{
}

}
