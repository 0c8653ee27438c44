//! Per-machine scope needs an administrator, so a run that mutates machine
//! scope either already has one or asks for one.
//!
//! The decision is never "the scope says machine": it is whether this process
//! can write where that scope keeps its state and its files. Both matter:
//! `%ProgramData%` lets a standard user create files, so a machine-scope run
//! that looked only at the state directory would start and then fail in
//! `%ProgramFiles%` halfway through.
//!
//! A prompt the user declines is `elevation_refused`; a process that cannot
//! raise a prompt at all is `elevation_required`. Both exit 4. Exit 5 stays
//! what it is: a run that was cancelled, not one that was never allowed to
//! start.

use vstd::prelude::*;

use crate::engine::package;
use crate::engine::package::{Package, Roots, RunOptions};
use crate::error::{Error, ErrorView};
use crate::machine::Machine;
use crate::metadata::{OptionValue, OptionView, Scope};
use crate::plan::target;
use crate::report::exit;
use crate::resource::predicate::OptionEntry;
use crate::text;

verus! {

/// The argument that tells an elevated child where to leave its outcome
/// document. It is a detail of one process handing a result to another, not
/// something a person passes.
pub const RESULT_ARGUMENT: &'static str = "--elevated-result";

/// The mutating intents that can need an administrator. `verify` and
/// `inspect` never do: they only read.
#[derive(Debug, Clone, Copy, PartialEq, Eq, Structural)]
pub enum Intent {
    Install,
    Uninstall,
    Repair,
}

impl Intent {
    /// The word of the intent.
    pub open spec fn name(self) -> Seq<char> {
        match self {
            Intent::Install => "install"@,
            Intent::Uninstall => "uninstall"@,
            Intent::Repair => "repair"@,
        }
    }

    /// The word of the intent.
    pub fn as_str(self) -> (r: &'static str)
        ensures
            r@ == self.name(),
    {
        match self {
            Intent::Install => "install",
            Intent::Uninstall => "uninstall",
            Intent::Repair => "repair",
        }
    }
}

/// What a machine requires of a run before it can change anything.
#[derive(Debug, Clone, Copy, PartialEq, Eq, Structural)]
pub enum Requirement {
    /// Nothing: user scope, or this process already has the rights.
    Satisfied,
    /// The run has to be relaunched elevated. A client that shows a button
    /// puts the shield on it.
    Elevation,
}

impl Requirement {
    pub fn needs_elevation(self) -> (r: bool)
        ensures
            r == (self == Requirement::Elevation),
    {
        matches!(self, Requirement::Elevation)
    }
}

/// What this process may do, as far as a run's roots are concerned.
#[derive(Debug, Clone, Copy, PartialEq, Eq, Structural)]
pub struct Rights {
    /// The process runs with an elevated token.
    pub elevated: bool,
    /// It can create files where the state directory goes.
    pub writes_state: bool,
    /// It can create files where the install root goes.
    pub writes_files: bool,
}

/// Whether a mutating run in a scope has to be relaunched elevated.
pub open spec fn is_required(scope: Scope, rights: Rights) -> bool {
    scope == Scope::Machine && !rights.elevated && !(rights.writes_state && rights.writes_files)
}

/// Whether a mutating run in this scope has to be relaunched elevated.
pub fn required(scope: Scope, rights: Rights) -> (r: bool)
    ensures
        r == is_required(scope, rights),
        scope == Scope::User ==> !r,
{
    matches!(scope, Scope::Machine) && !rights.elevated && !(rights.writes_state
        && rights.writes_files)
}

/// What a run of a package requires of this process: fails only where the run
/// itself could not be resolved at all — an unsupported scope, a known folder
/// this machine cannot name.
pub fn requirement(
    package: &Package,
    options: &RunOptions,
    rights: Rights,
    machine: &Machine,
) -> (r: Result<Requirement, Error>)
    ensures
        match (r, package::resolved(*package, *options, *machine)) {
            (Ok(found), Ok(_)) => found == if is_required(options.scope, rights) {
                Requirement::Elevation
            } else {
                Requirement::Satisfied
            },
            (Err(e), Err(why)) => e@ == why,
            _ => false,
        },
{
    match package::resolve_roots(package, options, machine) {
        Err(e) => Err(e),
        Ok(_) => Ok(
            if required(options.scope, rights) {
                Requirement::Elevation
            } else {
                Requirement::Satisfied
            },
        ),
    }
}

/// Where the right to create a directory is probed: in the directory itself
/// when it exists, otherwise in the nearest ancestor that does.
pub open spec fn probed(directory: Seq<char>, machine: Machine) -> Option<Seq<char>>
    decreases directory.len(),
{
    if machine.has_directory(directory) {
        Some(directory)
    } else {
        match target::parent_folder(directory) {
            Some(above) => if above.len() < directory.len() {
                probed(above, machine)
            } else {
                None
            },
            None => None,
        }
    }
}

/// Where the right to create a directory is probed. A directory with no
/// existing ancestor cannot be written.
pub fn probe_site(directory: &str, machine: &Machine) -> (r: Option<String>)
    ensures
        text::option_view(r) == probed(directory@, *machine),
    decreases directory@.len(),
{
    if machine.directory_exists(directory) {
        return Some(text::owned(directory));
    }
    match target::parent_folder_of(directory) {
        None => None,
        Some(above) => {
            let longer = text::chars_of(directory);
            let shorter = text::chars_of(above.as_str());
            if shorter.len() < longer.len() {
                probe_site(above.as_str(), machine)
            } else {
                None
            }
        },
    }
}

/// The values of one option as the command line spells it.
pub open spec fn spelled(value: OptionView) -> Seq<char> {
    match value {
        OptionView::Bool(true) => "on"@,
        OptionView::Bool(false) => "off"@,
        OptionView::Choice(c) => c,
    }
}

/// The arguments of the explicit options.
pub open spec fn option_arguments(entries: Seq<OptionEntry>) -> Seq<Seq<char>>
    decreases entries.len(),
{
    if entries.len() == 0 {
        Seq::empty()
    } else {
        option_arguments(entries.drop_last()) + seq![
            "--option"@,
            entries.last().name@,
            spelled(entries.last().value@),
        ]
    }
}

/// The arguments of the injected faults.
pub open spec fn fault_arguments(faults: Seq<String>) -> Seq<Seq<char>>
    decreases faults.len(),
{
    if faults.len() == 0 {
        Seq::empty()
    } else {
        fault_arguments(faults.drop_last()) + seq!["--fault"@, faults.last()@]
    }
}

/// A flag, where it is set.
pub open spec fn flag(set: bool, name: Seq<char>) -> Seq<Seq<char>> {
    if set {
        seq![name]
    } else {
        Seq::empty()
    }
}

/// An argument with a value, where there is one.
pub open spec fn with_value(name: Seq<char>, value: Option<Seq<char>>) -> Seq<Seq<char>> {
    match value {
        Some(v) => seq![name, v],
        None => Seq::empty(),
    }
}

/// The command line that reproduces a run.
pub open spec fn command(intent: Intent, options: RunOptions) -> Seq<Seq<char>> {
    seq![intent.name()] + flag(options.quiet, "--quiet"@) + seq!["--scope"@, options.scope.name()]
        + with_value("--install-root"@, text::option_view(options.install_root))
        + option_arguments(options.options.listed()) + flag(
        !options.install_dependencies,
        "--no-dependency-install"@,
    ) + with_value(
        "--lang"@,
        if options.lang@.len() == 0 {
            None
        } else {
            Some(options.lang@)
        },
    ) + with_value("--log"@, text::option_view(options.log_path)) + fault_arguments(
        options.faults@,
    )
}

fn put(out: &mut Vec<String>, argument: &str)
    ensures
        text::views(final(out)@) == text::views(old(out)@).push(argument@),
{
    let copy = text::owned(argument);
    proof {
        text::lemma_views_push(out@, copy);
    }
    out.push(copy);
}

fn put_flag(out: &mut Vec<String>, set: bool, name: &str)
    ensures
        text::views(final(out)@) == text::views(old(out)@) + flag(set, name@),
{
    let ghost before = text::views(out@);
    if set {
        put(out, name);
    }
    assert(text::views(out@) =~= before + flag(set, name@));
}

fn put_value(out: &mut Vec<String>, name: &str, value: &str)
    ensures
        text::views(final(out)@) == text::views(old(out)@) + seq![name@, value@],
{
    let ghost before = text::views(out@);
    put(out, name);
    put(out, value);
    assert(text::views(out@) =~= before + seq![name@, value@]);
}

fn put_given(out: &mut Vec<String>, name: &str, value: &Option<String>)
    ensures
        text::views(final(out)@) == text::views(old(out)@) + with_value(
            name@,
            text::option_view(*value),
        ),
{
    match value {
        Some(value) => put_value(out, name, value.as_str()),
        None => {
            assert(text::views(out@) =~= text::views(out@) + with_value(name@, None));
        },
    }
}

fn put_options(out: &mut Vec<String>, entries: &Vec<OptionEntry>)
    ensures
        text::views(final(out)@) == text::views(old(out)@) + option_arguments(entries@),
{
    let ghost before = text::views(out@);
    let ghost all = entries@;
    let mut i: usize = 0;
    assert(all.take(0) =~= Seq::<OptionEntry>::empty());
    assert(before + option_arguments(all.take(0)) =~= before);
    while i < entries.len()
        invariant
            i <= entries@.len(),
            all == entries@,
            text::views(out@) == before + option_arguments(all.take(i as int)),
        decreases entries@.len() - i,
    {
        put(out, "--option");
        put(out, entries[i].name.as_str());
        match &entries[i].value {
            OptionValue::Bool(on) => {
                if *on {
                    put(out, "on");
                } else {
                    put(out, "off");
                }
            },
            OptionValue::Choice(value) => {
                put(out, value.as_str());
            },
        }
        proof {
            assert(all.take(i + 1).drop_last() =~= all.take(i as int));
            assert(all.take(i + 1).last() == entries@[i as int]);
            assert(text::views(out@) =~= before + option_arguments(all.take(i + 1)));
        }
        i = i + 1;
    }
    assert(all.take(i as int) =~= all);
}

fn put_faults(out: &mut Vec<String>, faults: &Vec<String>)
    ensures
        text::views(final(out)@) == text::views(old(out)@) + fault_arguments(faults@),
{
    let ghost before = text::views(out@);
    let ghost all = faults@;
    let mut i: usize = 0;
    assert(all.take(0) =~= Seq::<String>::empty());
    assert(before + fault_arguments(all.take(0)) =~= before);
    while i < faults.len()
        invariant
            i <= faults@.len(),
            all == faults@,
            text::views(out@) == before + fault_arguments(all.take(i as int)),
        decreases faults@.len() - i,
    {
        put_value(out, "--fault", faults[i].as_str());
        proof {
            assert(all.take(i + 1).drop_last() =~= all.take(i as int));
            assert(text::views(out@) =~= before + fault_arguments(all.take(i + 1)));
        }
        i = i + 1;
    }
    assert(all.take(i as int) =~= all);
}

/// The command line that reproduces this run: the intent, then every choice
/// in `options` that a fresh process would otherwise not know about.
///
/// A client that wants the elevated run to proceed without a second interface
/// sets `quiet` on the options it passes; one that wants the elevated process
/// to show the interface leaves it clear.
pub fn arguments_for(intent: Intent, options: &RunOptions) -> (r: Vec<String>)
    ensures
        text::views(r@) == command(intent, *options),
{
    let mut out: Vec<String> = Vec::new();
    put(&mut out, intent.as_str());
    assert(text::views(out@) =~= seq![intent.name()]);
    put_flag(&mut out, options.quiet, "--quiet");
    put_value(&mut out, "--scope", options.scope.as_str());
    put_given(&mut out, "--install-root", &options.install_root);
    put_options(&mut out, options.options.entries());
    put_flag(&mut out, !options.install_dependencies, "--no-dependency-install");
    if options.lang.as_str().is_empty() {
        assert(text::views(out@) =~= text::views(out@) + with_value("--lang"@, None));
    } else {
        put_value(&mut out, "--lang", options.lang.as_str());
    }
    put_given(&mut out, "--log", &options.log_path);
    put_faults(&mut out, &options.faults);
    out
}

/// What a relaunched child left behind: an elevated one, or one started
/// plainly for the scope the wizard chose among two installations.
#[derive(Debug, PartialEq, Eq)]
pub struct Elevated {
    /// The child's exit code.
    pub exit_code: i32,
    /// The outcome document it wrote, when it wrote one.
    pub document: Option<String>,
}

/// How a child is shown.
#[derive(Debug, Clone, Copy, PartialEq, Eq, Structural)]
pub enum Show {
    Hidden,
    Shown,
}

/// How a child started with `arguments` is shown: hidden when it runs
/// quietly, shown when it is going to put up the wizard. A process's first
/// window follows the show state it was started with, so a wizard started
/// hidden would wait, invisible, for a click nobody can give.
pub fn show_for(arguments: &Vec<String>) -> (r: Show)
    ensures
        r == if text::views(arguments@).contains("--quiet"@) {
            Show::Hidden
        } else {
            Show::Shown
        },
{
    if text::listed(arguments, "--quiet") {
        Show::Hidden
    } else {
        Show::Shown
    }
}

/// How starting a child ended.
#[derive(Debug, PartialEq, Eq)]
pub enum Launched {
    /// It ran to its end with this exit code.
    Exited(i32),
    /// The user answered No to the prompt.
    Refused,
    /// It could not be started.
    Failed(String),
}

/// The file a child of its own name reports to, in a directory.
pub fn result_file(directory: &str, unique: &str) -> (r: String)
    ensures
        r@ == target::joined(directory@, "elevated-"@ + unique@ + ".json"@),
{
    let name = text::cat3("elevated-", unique, ".json");
    target::join(directory, name.as_str())
}

/// The arguments a child is relaunched with: without a result file a caller
/// already passed, and with this run's.
pub open spec fn relaunched_with(arguments: Seq<Seq<char>>, result: Seq<char>) -> Seq<Seq<char>> {
    forwarded(arguments) + seq!["--elevated-result"@, result]
}

/// The arguments a child is relaunched with.
pub fn relaunch_arguments(arguments: &Vec<String>, result: &str) -> (r: Vec<String>)
    ensures
        text::views(r@) == relaunched_with(text::views(arguments@), result@),
{
    let mut out = arguments_to_forward(arguments);
    let ghost before = text::views(out@);
    put(&mut out, RESULT_ARGUMENT);
    put(&mut out, result);
    assert(text::views(out@) =~= before + seq!["--elevated-result"@, result@]);
    out
}

/// What a relaunch comes to: what the child reported, or why it did not run.
pub fn relaunched(launched: Launched, document: Option<String>) -> (r: Result<Elevated, Error>)
    ensures
        match launched {
            Launched::Exited(exit_code) => r matches Ok(e) && e.exit_code == exit_code
                && e.document == document,
            Launched::Refused => r matches Err(e) && e@ == refusal(),
            Launched::Failed(message) => r matches Err(e) && e@ == unavailability(message@),
        },
{
    match launched {
        Launched::Exited(exit_code) => Ok(Elevated { exit_code, document }),
        Launched::Refused => Err(refused()),
        Launched::Failed(message) => Err(unavailable(message.as_str())),
    }
}

/// What a declined prompt is reported as.
pub open spec fn refusal() -> ErrorView {
    ErrorView {
        code: "elevation_refused"@,
        message: "this installation needs administrator rights and the prompt was refused"@,
    }
}

/// The user answered No to the prompt. Exit 4, not 5: the run never started,
/// so there is nothing that was cancelled.
pub fn refused() -> (r: Error)
    ensures
        r@ == refusal(),
{
    Error::new(
        "elevation_refused",
        "this installation needs administrator rights and the prompt was refused",
    )
}

/// What a run without the rights is reported as.
pub open spec fn unavailability(reason: Seq<char>) -> ErrorView {
    ErrorView {
        code: "elevation_required"@,
        message: "this installation needs administrator rights: "@ + reason,
    }
}

/// No prompt could be raised: User Account Control is off for this account,
/// or the account may not elevate at all.
pub fn unavailable(reason: &str) -> (r: Error)
    ensures
        r@ == unavailability(reason@),
{
    let message = text::cat2("this installation needs administrator rights: ", reason);
    Error::new("elevation_required", message.as_str())
}

/// Whether an error is a prompt the user declined, rather than any other way
/// of not having the rights. A client reports the two differently.
pub fn declined(err: &Error) -> (r: bool)
    ensures
        r == (err@.code == "elevation_refused"@),
{
    text::same(err.code, "elevation_refused")
}

/// Both elevation failures exit 4.
pub fn exit_code() -> (r: i32)
    ensures
        r == exit::ELEVATION,
{
    exit::ELEVATION
}

/// What a machine-scope run without the rights is refused with.
pub open spec fn not_allowed(scope: Scope, roots: Roots) -> ErrorView {
    unavailability(
        scope.name() + " scope installs into "@ + roots.install_root@ + " and keeps its state in "@
            + roots.state_dir@,
    )
}

/// Refuses a mutating run that cannot write the roots its scope uses: the
/// engine's own guarantee that no client can start a machine-scope change it
/// has no right to finish.
pub fn require_privileges(scope: Scope, roots: &Roots, rights: Rights) -> (r: Result<(), Error>)
    ensures
        match r {
            Ok(_) => !is_required(scope, rights),
            Err(e) => is_required(scope, rights) && e@ == not_allowed(scope, *roots),
        },
{
    if required(scope, rights) {
        let reason = text::cat5(
            scope.as_str(),
            " scope installs into ",
            roots.install_root.as_str(),
            " and keeps its state in ",
            roots.state_dir.as_str(),
        );
        return Err(unavailable(reason.as_str()));
    }
    Ok(())
}

/// Arguments without a result file and its path.
pub open spec fn forwarded(arguments: Seq<Seq<char>>) -> Seq<Seq<char>>
    decreases arguments.len(),
{
    if arguments.len() == 0 {
        arguments
    } else if arguments[0] == "--elevated-result"@ {
        if arguments.len() == 1 {
            Seq::empty()
        } else {
            forwarded(arguments.skip(2))
        }
    } else {
        seq![arguments[0]] + forwarded(arguments.drop_first())
    }
}

/// Arguments without an `--elevated-result` a caller already passed, so that
/// relaunching cannot nest one result file inside another.
pub fn arguments_to_forward(arguments: &Vec<String>) -> (r: Vec<String>)
    ensures
        text::views(r@) == forwarded(text::views(arguments@)),
{
    let ghost all = text::views(arguments@);
    let mut out: Vec<String> = Vec::new();
    let mut i: usize = 0;
    assert(all.skip(0) =~= all);
    assert(text::views(out@) + forwarded(all.skip(0)) =~= forwarded(all));
    while i < arguments.len()
        invariant
            i <= arguments@.len(),
            all == text::views(arguments@),
            text::views(out@) + forwarded(all.skip(i as int)) == forwarded(all),
        decreases arguments@.len() - i,
    {
        let ghost rest = all.skip(i as int);
        let ghost before = text::views(out@);
        assert(rest[0] == arguments@[i as int]@);
        if text::same(arguments[i].as_str(), RESULT_ARGUMENT) {
            if arguments.len() - i >= 2 {
                assert(rest.skip(2) =~= all.skip(i + 2));
                i = i + 2;
            } else {
                i = i + 1;
                assert(all.skip(i as int) =~= Seq::<Seq<char>>::empty());
            }
        } else {
            assert(rest.drop_first() =~= all.skip(i + 1));
            put(&mut out, arguments[i].as_str());
            assert(before.push(rest[0]) + forwarded(all.skip(i + 1)) =~= before + forwarded(rest));
            i = i + 1;
        }
    }
    assert(all.skip(i as int) =~= Seq::<Seq<char>>::empty());
    assert(text::views(out@) =~= forwarded(all));
    out
}

/// Forwarding never passes a result file on, so nothing is forwarded twice.
pub proof fn lemma_a_result_is_never_forwarded(arguments: Seq<Seq<char>>)
    ensures
        !forwarded(arguments).contains("--elevated-result"@),
        forwarded(forwarded(arguments)) == forwarded(arguments),
    decreases arguments.len(),
{
    if arguments.len() > 0 {
        if arguments[0] == "--elevated-result"@ {
            if arguments.len() > 1 {
                lemma_a_result_is_never_forwarded(arguments.skip(2));
            }
        } else {
            let rest = arguments.drop_first();
            lemma_a_result_is_never_forwarded(rest);
            let out = forwarded(arguments);
            assert(out == seq![arguments[0]] + forwarded(rest));
            assert forall|i: int| 0 <= i < out.len() implies out[i] != "--elevated-result"@ by {
                if i > 0 {
                    assert(out[i] == forwarded(rest)[i - 1]);
                    assert(forwarded(rest).contains(forwarded(rest)[i - 1]));
                }
            }
            assert(out.drop_first() =~= forwarded(rest));
        }
    }
}

/// Where the first result argument of a command line stands.
pub open spec fn result_at(arguments: Seq<Seq<char>>) -> Option<int> {
    crate::lists::position(arguments, |a: Seq<char>| a == "--elevated-result"@)
}

/// The path an `--elevated-result` argument names, for a client that parses
/// its own command line.
pub fn result_path(arguments: &Vec<String>) -> (r: Option<String>)
    ensures
        text::option_view(r) == match result_at(text::views(arguments@)) {
            Some(i) => if i + 1 < arguments@.len() {
                Some(text::views(arguments@)[i + 1])
            } else {
                None
            },
            None => None,
        },
{
    let ghost all = text::views(arguments@);
    let ghost p = |a: Seq<char>| a == "--elevated-result"@;
    let mut i: usize = 0;
    while i < arguments.len()
        invariant
            i <= arguments@.len(),
            all == text::views(arguments@),
            p == (|a: Seq<char>| a == "--elevated-result"@),
            forall|j: int| 0 <= j < i ==> !p(#[trigger] all[j]),
        decreases arguments@.len() - i,
    {
        assert(all[i as int] == arguments@[i as int]@);
        if text::same(arguments[i].as_str(), RESULT_ARGUMENT) {
            proof {
                crate::lists::lemma_position_at(all, p, i as int);
            }
            if i + 1 < arguments.len() {
                assert(all[i + 1] == arguments@[i + 1]@);
                return Some(arguments[i + 1].clone());
            }
            return None;
        }
        i = i + 1;
    }
    proof {
        crate::lists::lemma_position(all, p);
    }
    None
}

/// Only a run for the whole machine needs rights, and only where it has none
/// and cannot write without.
pub proof fn lemma_when_elevation_is_required(scope: Scope, rights: Rights)
    ensures
        is_required(scope, rights) ==> scope == Scope::Machine,
        rights.elevated ==> !is_required(scope, rights),
        rights.writes_state && rights.writes_files ==> !is_required(scope, rights),
        scope == Scope::Machine && !rights.elevated && !rights.writes_state ==> is_required(
            scope,
            rights,
        ),
        scope == Scope::Machine && !rights.elevated && !rights.writes_files ==> is_required(
            scope,
            rights,
        ),
{
}

/// What is probed is there: the directory itself where it is, and else the
/// nearest folder above it that is.
pub proof fn lemma_the_nearest_folder_is_probed(directory: Seq<char>, machine: Machine)
    ensures
        machine.has_directory(directory) ==> probed(directory, machine) == Some(directory),
        probed(directory, machine) matches Some(d) ==> machine.has_directory(d) && d.len()
            <= directory.len(),
        !machine.has_directory(directory) && (target::parent_folder(directory) matches Some(above)
            && above.len() < directory.len()) ==> probed(directory, machine) == probed(
            target::parent_folder(directory)->Some_0,
            machine,
        ),
    decreases directory.len(),
{
    if !machine.has_directory(directory) {
        match target::parent_folder(directory) {
            Some(above) => {
                if above.len() < directory.len() {
                    lemma_the_nearest_folder_is_probed(above, machine);
                }
            },
            None => {},
        }
    }
}

/// Every option is handed on with its name and value.
pub proof fn lemma_every_option_is_handed_on(entries: Seq<OptionEntry>, i: int)
    requires
        0 <= i < entries.len(),
    ensures
        option_arguments(entries).len() == 3 * entries.len(),
        option_arguments(entries)[3 * i] == "--option"@,
        option_arguments(entries)[3 * i + 1] == entries[i].name@,
        option_arguments(entries)[3 * i + 2] == (match entries[i].value@ {
            OptionView::Bool(on) => if on {
                "on"@
            } else {
                "off"@
            },
            OptionView::Choice(c) => c,
        }),
    decreases entries.len(),
{
    let before = entries.drop_last();
    if i < before.len() {
        assert(before[i] == entries[i]);
        lemma_every_option_is_handed_on(before, i);
    } else if before.len() > 0 {
        lemma_every_option_is_handed_on(before, 0);
    }
    let a = option_arguments(before);
    let last = seq!["--option"@, entries.last().name@, spelled(entries.last().value@)];
    assert(a.len() == 3 * before.len());
    assert(option_arguments(entries) == a + last);
    if i == before.len() {
        assert((a + last)[3 * i] == last[0]);
        assert((a + last)[3 * i + 1] == last[1]);
        assert((a + last)[3 * i + 2] == last[2]);
    } else {
        assert((a + last)[3 * i] == a[3 * i]);
        assert((a + last)[3 * i + 1] == a[3 * i + 1]);
        assert((a + last)[3 * i + 2] == a[3 * i + 2]);
    }
}

/// What a run hands on: what it is for, and everything it was told.
pub proof fn lemma_what_a_run_hands_on(intent: Intent, options: RunOptions)
    ensures
        ({
            let c = command(intent, options);
            let q: int = if options.quiet {
                2
            } else {
                1
            };
            &&& c.len() >= q + 2
            &&& c[0] == intent.name()
            &&& options.quiet ==> c[1] == "--quiet"@
            &&& c[q] == "--scope"@
            &&& c[q + 1] == options.scope.name()
            &&& options.install_root matches Some(root) ==> c.len() >= q + 4 && c[q + 2]
                == "--install-root"@ && c[q + 3] == root@
            &&& !options.install_dependencies ==> c.contains("--no-dependency-install"@)
            &&& options.lang@.len() > 0 ==> c.contains("--lang"@) && c.contains(options.lang@)
            &&& options.log_path matches Some(path) ==> c.contains("--log"@) && c.contains(path@)
        }),
{
    let c = command(intent, options);
    let head = seq![intent.name()] + flag(options.quiet, "--quiet"@) + seq![
        "--scope"@,
        options.scope.name(),
    ] + with_value("--install-root"@, text::option_view(options.install_root));
    let listed = option_arguments(options.options.listed());
    let skip = flag(!options.install_dependencies, "--no-dependency-install"@);
    let lang = with_value(
        "--lang"@,
        if options.lang@.len() == 0 {
            None
        } else {
            Some(options.lang@)
        },
    );
    let log = with_value("--log"@, text::option_view(options.log_path));
    let faults = fault_arguments(options.faults@);
    assert(c == head + listed + skip + lang + log + faults);
    let a = head.len() as int + listed.len();
    let b = a + skip.len();
    let d = b + lang.len();
    assert forall|k: int| 0 <= k < skip.len() implies c[a + k] == #[trigger] skip[k] by {}
    assert forall|k: int| 0 <= k < lang.len() implies c[b + k] == #[trigger] lang[k] by {}
    assert forall|k: int| 0 <= k < log.len() implies c[d + k] == #[trigger] log[k] by {}
    assert forall|k: int| 0 <= k < head.len() implies c[k] == #[trigger] head[k] by {}
    if skip.len() > 0 {
        assert(c[a + 0] == skip[0]);
    }
    if lang.len() > 0 {
        assert(c[b + 0] == lang[0]);
        assert(c[b + 1] == lang[1]);
    }
    if log.len() > 0 {
        assert(c[d + 0] == log[0]);
        assert(c[d + 1] == log[1]);
    }
    let q: int = if options.quiet {
        2
    } else {
        1
    };
    assert(head[0] == intent.name());
    assert(head[q] == "--scope"@);
    assert(head[q + 1] == options.scope.name());
    assert(c[0] == head[0]);
    assert(c[q] == head[q]);
    assert(c[q + 1] == head[q + 1]);
    if options.quiet {
        assert(c[1] == head[1]);
    }
    if options.install_root is Some {
        assert(c[q + 2] == head[q + 2]);
        assert(c[q + 3] == head[q + 3]);
    }
}

/// A run that is started anew is told where to leave its result, once and
/// last, and finds it there.
pub proof fn lemma_a_new_run_finds_where_to_answer(arguments: Seq<Seq<char>>, result: Seq<char>)
    ensures
        ({
            let all = relaunched_with(arguments, result);
            let n = all.len() as int;
            &&& n >= 2
            &&& all[n - 2] == "--elevated-result"@
            &&& all[n - 1] == result
            &&& result_at(all) == Some(n - 2)
            &&& forall|i: int| 0 <= i < n - 2 ==> #[trigger] all[i] != "--elevated-result"@
        }),
{
    let all = relaunched_with(arguments, result);
    let n = all.len() as int;
    let kept = forwarded(arguments);
    lemma_a_result_is_never_forwarded(arguments);
    assert forall|i: int| 0 <= i < n - 2 implies #[trigger] all[i] != "--elevated-result"@ by {
        assert(all[i] == kept[i]);
        assert(kept.contains(kept[i]));
    }
    let p = |a: Seq<char>| a == "--elevated-result"@;
    assert(p(all[n - 2]));
    assert forall|i: int| 0 <= i < n - 2 implies !p(#[trigger] all[i]) by {}
    crate::lists::lemma_position_at(all, p, n - 2);
}

/// Arguments that say nothing of a result are handed on as they are.
pub proof fn lemma_other_arguments_are_handed_on(arguments: Seq<Seq<char>>)
    requires
        !arguments.contains("--elevated-result"@),
    ensures
        forwarded(arguments) == arguments,
    decreases arguments.len(),
{
    if arguments.len() > 0 {
        assert(arguments.contains(arguments[0]));
        let rest = arguments.drop_first();
        assert(!rest.contains("--elevated-result"@)) by {
            if rest.contains("--elevated-result"@) {
                let i = choose|i: int| 0 <= i < rest.len() && rest[i] == "--elevated-result"@;
                assert(arguments[i + 1] == "--elevated-result"@);
            }
        }
        lemma_other_arguments_are_handed_on(rest);
        assert(seq![arguments[0]] + rest =~= arguments);
    }
}

}
