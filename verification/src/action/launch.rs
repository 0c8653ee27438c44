//! The launch an action resolves to, and the verdict on what it did.

use vstd::prelude::*;
use vstd::string::*;
use vstd::utf8::*;

use crate::action::definition::{
    Action, ActionFailurePolicy, ActionKind, ActionOperation, ActionView,
};
use crate::lists;
use crate::machine::Machine;
use crate::metadata::Scope;
use crate::plan::target;
use crate::text;

verus! {

/// The subdirectory of the state directory that keeps the programs of the
/// committed uninstall-phase actions, one directory per SHA-256.
pub const STORE_DIR: &'static str = "actions";

/// The subdirectory of a transaction's staging area a packaged install-phase
/// program is extracted into.
pub const STAGING_DIR: &'static str = "actions";

/// The `value_kind` of an action operation row.
pub const VALUE_KIND: &'static str = "action";

/// The `value_kind` of a store operation row that keeps a quiescence entry
/// — its definition and its packaged programs — for the uninstall.
pub const QUIESCENCE_VALUE_KIND: &'static str = "quiescence";

/// How much of each captured stream the outcome document keeps.
pub const OUTPUT_TAIL_BYTES: usize = 4096;

/// How many lines of each captured stream the log records per action.
pub const LOG_LINES: usize = 200;

/// The stable finding an action found `started` on restart is reported
/// with: what it did is unknown.
pub const INTERRUPTED: &'static str = "action_interrupted";

/// The stable finding a rollback records for an action that ran: what the
/// program changed stays changed.
pub const NOT_REVERTED: &'static str = "action_not_reverted";

/// The stable finding a `continue` action that failed is reported with.
pub const FAILED_CONTINUED: &'static str = "action_failed_continued";

/// Where the state directory keeps the programs of one hash.
pub open spec fn kept_in(state_dir: Seq<char>, sha256: Seq<char>) -> Seq<char> {
    target::joined(target::joined(state_dir, "actions"@), sha256)
}

/// Where the state directory keeps the program of a stored action:
/// `<state directory>\actions\<sha256>\<file name>`. Content-addressed, so
/// two versions' programs never overwrite each other and an upgrade that
/// fails leaves the previous installation's untouched.
pub fn store_dir(state_dir: &str, sha256: &str) -> (r: String)
    ensures
        r@ == kept_in(state_dir@, sha256@),
{
    let programs = target::join(state_dir, "actions");
    target::join(programs.as_str(), sha256)
}

/// Where the program of a stored action is kept.
pub fn stored_program(state_dir: &str, action: &Action) -> (r: String)
    ensures
        r@ == target::joined(kept_in(state_dir@, action.sha256@), action.file_name@),
{
    let dir = store_dir(state_dir, action.sha256.as_str());
    target::join(dir.as_str(), action.file_name.as_str())
}

/// Where a transaction extracts a packaged install-phase program.
pub fn staged_program(staging_dir: &str, action: &Action) -> (r: String)
    ensures
        r@ == target::joined(target::joined(staging_dir@, "actions"@), action.file_name@),
{
    let dir = target::join(staging_dir, "actions");
    target::join(dir.as_str(), action.file_name.as_str())
}

/// What a run tells an action about itself, through the placeholders and
/// the environment.
#[derive(Debug)]
pub struct Context {
    pub install_root: String,
    pub version: String,
    pub product_id: String,
    pub scope: Scope,
    pub operation: ActionOperation,
    pub quiet: bool,
}

/// Whether a character may stand in the name of a placeholder.
pub open spec fn is_name_char(c: char) -> bool {
    ||| 'a' <= c <= 'z'
    ||| 'A' <= c <= 'Z'
    ||| '0' <= c <= '9'
    ||| c == '_'
    ||| c == '('
    ||| c == ')'
}

/// Whether a text can name a placeholder.
pub open spec fn is_name(s: Seq<char>) -> bool {
    s.len() > 0 && forall|i: int| 0 <= i < s.len() ==> is_name_char(#[trigger] s[i])
}

fn names(v: &Vec<char>, from: usize, to: usize) -> (r: bool)
    requires
        from <= to <= v@.len(),
    ensures
        r == is_name(v@.subrange(from as int, to as int)),
{
    let ghost name = v@.subrange(from as int, to as int);
    if from == to {
        return false;
    }
    let mut i: usize = from;
    while i < to
        invariant
            from <= i <= to <= v@.len(),
            name == v@.subrange(from as int, to as int),
            forall|j: int| 0 <= j < i - from ==> is_name_char(#[trigger] name[j]),
        decreases to - i,
    {
        let c = v[i];
        let fits = ('a' <= c && c <= 'z') || ('A' <= c && c <= 'Z') || ('0' <= c && c <= '9') || c
            == '_' || c == '(' || c == ')';
        if !fits {
            assert(!is_name_char(name[i - from]));
            return false;
        }
        i = i + 1;
    }
    true
}

/// What a placeholder stands for.
pub open spec fn value_of(name: Seq<char>, root: Seq<char>, version: Seq<char>, machine: Machine) -> Option<Seq<char>> {
    if text::lower(name) == "installroot"@ {
        Some(root)
    } else if text::lower(name) == "version"@ {
        Some(version)
    } else {
        machine.folder(name)
    }
}

fn lookup(name: &str, root: &str, version: &str, machine: &Machine) -> (r: Option<String>)
    ensures
        text::option_view(r) == value_of(name@, root@, version@, *machine),
{
    let lower = text::lower_of(name);
    if text::same(lower.as_str(), "installroot") {
        Some(text::owned(root))
    } else if text::same(lower.as_str(), "version") {
        Some(text::owned(version))
    } else {
        match machine.known_folder(name) {
            Some(folder) => Some(text::owned(folder)),
            None => None,
        }
    }
}

/// What the placeholder that opens in front of `after` stands for, and where
/// its closing `%` is: nothing when no name is closed there or the name is
/// none of a placeholder.
pub open spec fn placeholder(after: Seq<char>, root: Seq<char>, version: Seq<char>, machine: Machine) -> Option<
    (Seq<char>, int),
> {
    match text::find(after, '%') {
        None => None,
        Some(end) => if is_name(after.take(end)) {
            match value_of(after.take(end), root, version, machine) {
                Some(value) => Some((value, end)),
                None => None,
            }
        } else {
            None
        },
    }
}

/// `s` with `%INSTALLROOT%`, `%VERSION%` and the known folders replaced. A
/// `%` that does not open a known placeholder is kept as it is.
pub open spec fn expansion(
    s: Seq<char>,
    root: Seq<char>,
    version: Seq<char>,
    machine: Machine,
) -> Seq<char>
    decreases s.len(),
{
    match text::find(s, '%') {
        None => s,
        Some(start) => {
            proof {
                text::lemma_find(s, '%');
                text::lemma_find(s.skip(start + 1), '%');
            }
            let after = s.skip(start + 1);
            match placeholder(after, root, version, machine) {
                Some((value, end)) => s.take(start) + value + expansion(
                    after.skip(end + 1),
                    root,
                    version,
                    machine,
                ),
                None => s.take(start + 1) + expansion(after, root, version, machine),
            }
        },
    }
}

/// Expands `%INSTALLROOT%`, `%VERSION%` and the known folders in a command,
/// an argument or a working directory. A `%` that does not open a known
/// placeholder is kept as it is, because an argument such as `100%` is an
/// argument, not a template.
pub fn expand(template: &str, context: &Context, machine: &Machine) -> (r: String)
    ensures
        r@ == expansion(template@, context.install_root@, context.version@, *machine),
{
    expand_for(template, context.install_root.as_str(), context.version.as_str(), machine)
}

/// Expands the placeholders of an installation: [`expand`] without a run
/// around it.
pub fn expand_for(template: &str, install_root: &str, version: &str, machine: &Machine) -> (r:
    String)
    ensures
        r@ == expansion(template@, install_root@, version@, *machine),
{
    let v = text::chars_of(template);
    assert(v@.skip(0) =~= v@);
    expand_from(&v, 0, install_root, version, machine)
}

fn placeholder_at(v: &Vec<char>, from: usize, root: &str, version: &str, machine: &Machine) -> (r: Option<
    (String, usize),
>)
    requires
        from <= v@.len(),
    ensures
        match (r, placeholder(v@.skip(from as int), root@, version@, *machine)) {
            (Some((value, at)), Some((s, end))) => value@ == s && at == from + end && from
                <= at < v@.len(),
            (None, None) => true,
            _ => false,
        },
{
    let ghost after = v@.skip(from as int);
    proof {
        text::lemma_find(after, '%');
    }
    match text::find_from(v, from, '%') {
        None => None,
        Some(at) => {
            assert(after.take(at - from) =~= v@.subrange(from as int, at as int));
            if names(v, from, at) {
                let name = text::slice_of(v, from, at);
                assert(name@ =~= after.take(at - from));
                let name = text::string_of(&name);
                match lookup(name.as_str(), root, version, machine) {
                    Some(value) => Some((value, at)),
                    None => None,
                }
            } else {
                None
            }
        },
    }
}

fn expand_from(v: &Vec<char>, at: usize, root: &str, version: &str, machine: &Machine) -> (r: String)
    requires
        at <= v@.len(),
    ensures
        r@ == expansion(v@.skip(at as int), root@, version@, *machine),
    decreases v@.len() - at,
{
    let n: usize = v.len();
    let ghost rest = v@.skip(at as int);
    proof {
        text::lemma_find(rest, '%');
    }
    match text::find_from(v, at, '%') {
        None => {
            let tail = text::slice_of(v, at, n);
            assert(tail@ =~= rest);
            text::string_of(&tail)
        },
        Some(start) => {
            let ghost after = rest.skip(start - at + 1);
            assert(after =~= v@.skip(start + 1));
            match placeholder_at(v, start + 1, root, version, machine) {
                Some((value, end)) => {
                    let before = text::slice_of(v, at, start);
                    assert(before@ =~= rest.take(start - at));
                    assert(after.skip(end - start - 1 + 1) =~= v@.skip(end + 1));
                    let mut out = text::string_of(&before);
                    let more = expand_from(v, end + 1, root, version, machine);
                    out.append(value.as_str());
                    out.append(more.as_str());
                    out
                },
                None => {
                    let before = text::slice_of(v, at, start + 1);
                    assert(before@ =~= rest.take(start - at + 1));
                    let mut out = text::string_of(&before);
                    let more = expand_from(v, start + 1, root, version, machine);
                    out.append(more.as_str());
                    out
                },
            }
        },
    }
}

/// Every argument expanded.
pub open spec fn expansions(
    v: Seq<String>,
    root: Seq<char>,
    version: Seq<char>,
    machine: Machine,
) -> Seq<Seq<char>> {
    v.map_values(|a: String| expansion(a@, root, version, machine))
}

/// Every argument expanded.
pub fn expand_all(v: &Vec<String>, root: &str, version: &str, machine: &Machine) -> (r: Vec<String>)
    ensures
        text::views(r@) == expansions(v@, root@, version@, *machine),
{
    let mut out: Vec<String> = Vec::new();
    let mut i: usize = 0;
    while i < v.len()
        invariant
            i <= v@.len(),
            out@.len() == i,
            forall|j: int|
                0 <= j < i ==> #[trigger] out@[j]@ == expansion(v@[j]@, root@, version@, *machine),
        decreases v@.len() - i,
    {
        out.push(expand_for(v[i].as_str(), root, version, machine));
        i = i + 1;
    }
    assert(text::views(out@) =~= expansions(v@, root@, version@, *machine));
    out
}

/// A file of the system directory.
pub open spec fn system_file(machine: Machine, file: Seq<char>) -> Seq<char> {
    target::joined(
        target::joined(
            match machine.variable("SystemRoot"@) {
                Some(root) => root,
                None => "C:\\Windows"@,
            },
            "System32"@,
        ),
        file,
    )
}

/// A file of the system directory.
pub fn system32(machine: &Machine, file: &str) -> (r: String)
    ensures
        r@ == system_file(*machine, file@),
{
    let root = match machine.environment_variable("SystemRoot") {
        Some(root) => root,
        None => "C:\\Windows",
    };
    let dir = target::join(root, "System32");
    target::join(dir.as_str(), file)
}

/// `n` backslashes.
pub open spec fn backslashes(n: nat) -> Seq<char> {
    Seq::new(n, |i: int| '\\')
}

/// The inside of a quoted argument: a quote is escaped by a backslash, and
/// backslashes in front of a quote are doubled.
pub open spec fn escaped(s: Seq<char>, pending: nat) -> Seq<char>
    decreases s.len(),
{
    if s.len() == 0 {
        backslashes(2 * pending)
    } else if s[0] == '\\' {
        escaped(s.drop_first(), pending + 1)
    } else if s[0] == '"' {
        backslashes(2 * pending + 1) + seq!['"'] + escaped(s.drop_first(), 0)
    } else {
        backslashes(pending) + seq![s[0]] + escaped(s.drop_first(), 0)
    }
}

/// Whether an argument needs no quotes.
pub open spec fn is_plain(s: Seq<char>) -> bool {
    s.len() > 0 && forall|i: int|
        0 <= i < s.len() ==> #[trigger] s[i] != ' ' && s[i] != '\t' && s[i] != '"'
}

/// An argument on a command line.
pub open spec fn quoted(s: Seq<char>) -> Seq<char> {
    if is_plain(s) {
        s
    } else {
        seq!['"'] + escaped(s, 0) + seq!['"']
    }
}

fn push_backslashes(out: &mut String, n: usize)
    ensures
        final(out)@ == old(out)@ + backslashes(n as nat),
{
    let mut i: usize = 0;
    assert(out@ =~= old(out)@ + backslashes(0));
    while i < n
        invariant
            i <= n,
            out@ == old(out)@ + backslashes(i as nat),
        decreases n - i,
    {
        out.push('\\');
        i = i + 1;
        assert(out@ =~= old(out)@ + backslashes(i as nat));
    }
}

fn quote(s: &str) -> (r: String)
    ensures
        r@ == quoted(s@),
{
    let v = text::chars_of(s);
    let mut plain = v.len() > 0;
    let mut k: usize = 0;
    while k < v.len()
        invariant
            k <= v@.len(),
            v@ == s@,
            plain <==> v@.len() > 0 && forall|j: int|
                0 <= j < k ==> #[trigger] v@[j] != ' ' && v@[j] != '\t' && v@[j] != '"',
        decreases v@.len() - k,
    {
        if v[k] == ' ' || v[k] == '\t' || v[k] == '"' {
            plain = false;
        }
        k = k + 1;
    }
    if plain {
        return text::owned(s);
    }
    let mut out = String::new();
    out.push('"');
    let mut pending: usize = 0;
    let mut i: usize = 0;
    assert(v@.skip(0) =~= v@);
    assert(out@ + escaped(v@.skip(0), 0) =~= seq!['"'] + escaped(v@, 0));
    while i < v.len()
        invariant
            i <= v@.len(),
            pending <= i,
            out@ + escaped(v@.skip(i as int), pending as nat) == seq!['"'] + escaped(v@, 0),
        decreases v@.len() - i,
    {
        let c = v[i];
        let ghost rest = v@.skip(i as int);
        let ghost before = out@;
        assert(rest.drop_first() =~= v@.skip(i + 1));
        if c == '\\' {
            pending = pending + 1;
        } else if c == '"' {
            push_backslashes(&mut out, pending);
            push_backslashes(&mut out, pending);
            out.push('\\');
            out.push('"');
            assert(out@ + escaped(v@.skip(i + 1), 0) =~= before + escaped(rest, pending as nat));
            pending = 0;
        } else {
            push_backslashes(&mut out, pending);
            out.push(c);
            assert(out@ + escaped(v@.skip(i + 1), 0) =~= before + escaped(rest, pending as nat));
            pending = 0;
        }
        i = i + 1;
    }
    assert(v@.skip(i as int) =~= Seq::empty());
    push_backslashes(&mut out, pending);
    push_backslashes(&mut out, pending);
    out.push('"');
    assert(out@ =~= seq!['"'] + escaped(v@, 0) + seq!['"']);
    out
}

/// The arguments of a command line, each behind a space.
pub open spec fn trailing(arguments: Seq<Seq<char>>) -> Seq<char>
    decreases arguments.len(),
{
    if arguments.len() == 0 {
        Seq::empty()
    } else {
        trailing(arguments.drop_last()) + seq![' '] + quoted(arguments.last())
    }
}

/// Arguments on a command line, each behind a space but the first.
pub open spec fn joined(arguments: Seq<Seq<char>>) -> Seq<char> {
    if arguments.len() == 0 {
        Seq::empty()
    } else {
        trailing(arguments).drop_first()
    }
}

/// A command line: the program in quotes, then the arguments, each quoted
/// where it has to be.
pub open spec fn line(program: Seq<char>, arguments: Seq<Seq<char>>) -> Seq<char> {
    seq!['"'] + program + seq!['"'] + trailing(arguments)
}

/// A command line.
pub fn command_line(program: &str, arguments: &Vec<String>) -> (r: String)
    ensures
        r@ == line(program@, text::views(arguments@)),
{
    let mut out = String::new();
    out.push('"');
    out.append(program);
    out.push('"');
    let ghost all = text::views(arguments@);
    let ghost head = out@;
    let mut i: usize = 0;
    assert(head =~= seq!['"'] + program@ + seq!['"']);
    assert(head + trailing(all.take(0)) =~= head);
    while i < arguments.len()
        invariant
            i <= arguments@.len(),
            all == text::views(arguments@),
            out@ == head + trailing(all.take(i as int)),
        decreases arguments@.len() - i,
    {
        assert(all[i as int] == arguments@[i as int]@);
        let argument = quote(arguments[i].as_str());
        out.push(' ');
        out.append(argument.as_str());
        proof {
            assert(all.take(i + 1).drop_last() =~= all.take(i as int));
            assert(out@ =~= head + trailing(all.take(i + 1)));
        }
        i = i + 1;
    }
    assert(all.take(i as int) =~= all);
    out
}

/// Arguments on a command line.
pub fn join_arguments(arguments: &Vec<String>) -> (r: String)
    ensures
        r@ == joined(text::views(arguments@)),
{
    let whole = command_line("", arguments);
    let ghost all = text::views(arguments@);
    let v = text::chars_of(whole.as_str());
    proof {
        reveal_strlit("");
        assert(whole@ =~= seq!['"', '"'] + trailing(all));
    }
    if arguments.len() == 0 {
        return String::new();
    }
    proof {
        lemma_trailing_nonempty(all);
    }
    let rest = text::slice_of(&v, 3, v.len());
    assert(rest@ =~= trailing(all).drop_first());
    text::string_of(&rest)
}

proof fn lemma_trailing_nonempty(arguments: Seq<Seq<char>>)
    requires
        arguments.len() > 0,
    ensures
        trailing(arguments).len() > 0,
{
}

/// A program to start, with everything it is started with.
#[derive(Debug)]
pub struct Launch {
    pub program: String,
    pub arguments: Vec<String>,
    /// What is put behind the arguments as it stands.
    pub raw_tail: Option<String>,
    pub working_directory: Option<String>,
    pub environment: Vec<(String, String)>,
    pub timeout_seconds: u64,
}

/// What a [`Launch`] says.
#[verifier::ext_equal]
pub struct LaunchView {
    pub program: Seq<char>,
    pub arguments: Seq<Seq<char>>,
    pub raw_tail: Option<Seq<char>>,
    pub working_directory: Option<Seq<char>>,
    pub environment: Seq<(Seq<char>, Seq<char>)>,
    pub timeout_seconds: u64,
}

/// Names and values by their text.
pub open spec fn pairs(v: Seq<(String, String)>) -> Seq<(Seq<char>, Seq<char>)> {
    v.map_values(|p: (String, String)| (p.0@, p.1@))
}

impl View for Launch {
    type V = LaunchView;

    open spec fn view(&self) -> LaunchView {
        LaunchView {
            program: self.program@,
            arguments: text::views(self.arguments@),
            raw_tail: text::option_view(self.raw_tail),
            working_directory: text::option_view(self.working_directory),
            environment: pairs(self.environment@),
            timeout_seconds: self.timeout_seconds,
        }
    }
}

/// The environment an action reads its context from.
pub open spec fn environment(a: ActionView, context: Context) -> Seq<(Seq<char>, Seq<char>)> {
    seq![
        ("TIGERSETUP_INSTALL_ROOT"@, context.install_root@),
        ("TIGERSETUP_VERSION"@, context.version@),
        ("TIGERSETUP_PRODUCT_ID"@, context.product_id@),
        ("TIGERSETUP_SCOPE"@, context.scope.name()),
        ("TIGERSETUP_OPERATION"@, context.operation.name()),
        ("TIGERSETUP_PHASE"@, a.phase.name()),
        ("TIGERSETUP_ACTION"@, a.name),
        (
            "TIGERSETUP_QUIET"@,
            if context.quiet {
                "1"@
            } else {
                "0"@
            },
        ),
    ]
}

fn environment_of(action: &Action, context: &Context) -> (r: Vec<(String, String)>)
    ensures
        pairs(r@) == environment(action@, *context),
{
    let mut v: Vec<(String, String)> = Vec::new();
    v.push((text::owned("TIGERSETUP_INSTALL_ROOT"), context.install_root.clone()));
    v.push((text::owned("TIGERSETUP_VERSION"), context.version.clone()));
    v.push((text::owned("TIGERSETUP_PRODUCT_ID"), context.product_id.clone()));
    v.push((text::owned("TIGERSETUP_SCOPE"), text::owned(context.scope.as_str())));
    v.push((text::owned("TIGERSETUP_OPERATION"), text::owned(context.operation.as_str())));
    v.push((text::owned("TIGERSETUP_PHASE"), text::owned(action.phase.as_str())));
    v.push((text::owned("TIGERSETUP_ACTION"), action.name.clone()));
    let quiet = if context.quiet {
        text::owned("1")
    } else {
        text::owned("0")
    };
    v.push((text::owned("TIGERSETUP_QUIET"), quiet));
    assert(pairs(v@) =~= environment(action@, *context));
    v
}

/// The launch an action resolves to once its program is on disk: the
/// interpreter and its non-interactive switches for a script, the program
/// itself for an executable; the expanded arguments; the working directory;
/// and the environment.
///
/// `/s` makes cmd strip exactly the outer quotes, so the script's own quoted
/// path and quoted arguments survive its parsing.
pub open spec fn launched(
    action: Action,
    program: Seq<char>,
    context: Context,
    machine: Machine,
) -> LaunchView {
    let root = context.install_root@;
    let version = context.version@;
    let arguments = expansions(action.arguments@, root, version, machine);
    LaunchView {
        program: match action.kind {
            ActionKind::Powershell => system_file(
                machine,
                "WindowsPowerShell\\v1.0\\powershell.exe"@,
            ),
            ActionKind::Cmd => system_file(machine, "cmd.exe"@),
            ActionKind::Exe => program,
        },
        arguments: match action.kind {
            ActionKind::Powershell => seq![
                "-NoProfile"@,
                "-NonInteractive"@,
                "-ExecutionPolicy"@,
                "Bypass"@,
                "-File"@,
                program,
            ] + arguments,
            ActionKind::Cmd => seq!["/d"@, "/s"@, "/c"@],
            ActionKind::Exe => arguments,
        },
        raw_tail: match action.kind {
            ActionKind::Cmd => Some(seq!['"'] + line(program, arguments) + seq!['"']),
            _ => None,
        },
        working_directory: if action.working_directory@.len() == 0 {
            target::parent_folder(program)
        } else {
            Some(expansion(action.working_directory@, root, version, machine))
        },
        environment: environment(action@, context),
        timeout_seconds: action.timeout_seconds as u64,
    }
}

/// The launch an action resolves to once its program is on disk at
/// `program`.
pub fn launch_of(action: &Action, program: &str, context: &Context, machine: &Machine) -> (r:
    Launch)
    ensures
        r@ == launched(*action, program@, *context, *machine),
{
    let arguments = expand_all(
        &action.arguments,
        context.install_root.as_str(),
        context.version.as_str(),
        machine,
    );
    let working_directory = if action.working_directory.as_str().is_empty() {
        target::parent_folder_of(program)
    } else {
        Some(expand(action.working_directory.as_str(), context, machine))
    };
    let environment = environment_of(action, context);
    let timeout_seconds = action.timeout_seconds as u64;
    match action.kind {
        ActionKind::Powershell => {
            let mut all: Vec<String> = Vec::new();
            all.push(text::owned("-NoProfile"));
            all.push(text::owned("-NonInteractive"));
            all.push(text::owned("-ExecutionPolicy"));
            all.push(text::owned("Bypass"));
            all.push(text::owned("-File"));
            all.push(text::owned(program));
            let ghost head = all@;
            let ghost tail = arguments@;
            let mut arguments = arguments;
            all.append(&mut arguments);
            let r = Launch {
                program: system32(machine, "WindowsPowerShell\\v1.0\\powershell.exe"),
                arguments: all,
                raw_tail: None,
                working_directory,
                environment,
                timeout_seconds,
            };
            proof {
                text::lemma_views_concat(head, tail);
                assert(text::views(head) =~= seq![
                    "-NoProfile"@,
                    "-NonInteractive"@,
                    "-ExecutionPolicy"@,
                    "Bypass"@,
                    "-File"@,
                    program@,
                ]);
            }
            r
        },
        ActionKind::Cmd => {
            let command = command_line(program, &arguments);
            let mut tail = String::new();
            tail.push('"');
            tail.append(command.as_str());
            tail.push('"');
            let mut all: Vec<String> = Vec::new();
            all.push(text::owned("/d"));
            all.push(text::owned("/s"));
            all.push(text::owned("/c"));
            assert(text::views(all@) =~= seq!["/d"@, "/s"@, "/c"@]);
            assert(tail@ =~= seq!['"'] + command@ + seq!['"']);
            Launch {
                program: system32(machine, "cmd.exe"),
                arguments: all,
                raw_tail: Some(tail),
                working_directory,
                environment,
                timeout_seconds,
            }
        },
        ActionKind::Exe => Launch {
            program: text::owned(program),
            arguments,
            raw_tail: None,
            working_directory,
            environment,
            timeout_seconds,
        },
    }
}

/// The command line as the log records it.
pub fn describe_launch(launch: &Launch) -> (r: String)
    ensures
        r@ == line(launch@.program, launch@.arguments) + match launch@.raw_tail {
            Some(tail) => seq![' '] + tail,
            None => Seq::empty(),
        },
{
    let mut out = command_line(launch.program.as_str(), &launch.arguments);
    match &launch.raw_tail {
        Some(tail) => {
            out.push(' ');
            out.append(tail.as_str());
        },
        None => {},
    }
    assert(out@ =~= line(launch@.program, launch@.arguments) + match launch@.raw_tail {
        Some(tail) => seq![' '] + tail,
        None => Seq::empty(),
    });
    out
}

/// How one execution ended.
#[derive(Debug, Clone, Copy, PartialEq, Eq, Structural)]
pub enum Status {
    Completed,
    Failed,
    TimedOut,
    LaunchFailed,
}

impl Status {
    /// The word of the record and of the outcome document.
    pub open spec fn name(self) -> Seq<char> {
        match self {
            Status::Completed => "completed"@,
            Status::Failed => "failed"@,
            Status::TimedOut => "timed_out"@,
            Status::LaunchFailed => "launch_failed"@,
        }
    }

    /// The `action_run` status and the outcome document's word.
    pub fn as_str(self) -> (r: &'static str)
        ensures
            r@ == self.name(),
    {
        match self {
            Status::Completed => "completed",
            Status::Failed => "failed",
            Status::TimedOut => "timed_out",
            Status::LaunchFailed => "launch_failed",
        }
    }

    /// The stable code a run that this status stops carries.
    pub open spec fn code(self) -> Seq<char> {
        match self {
            Status::Completed => "ok"@,
            Status::Failed => "action_failed"@,
            Status::TimedOut => "action_timed_out"@,
            Status::LaunchFailed => "action_launch_failed"@,
        }
    }

    /// The stable code a run that this status stops carries.
    pub fn failure_code(self) -> (r: &'static str)
        ensures
            r@ == self.code(),
    {
        match self {
            Status::Completed => "ok",
            Status::Failed => "action_failed",
            Status::TimedOut => "action_timed_out",
            Status::LaunchFailed => "action_launch_failed",
        }
    }
}

/// What a started program left behind.
#[derive(Debug)]
pub struct Captured {
    /// `None` when the deadline passed and the program was killed.
    pub exit_code: Option<i32>,
    pub timed_out: bool,
    pub stdout: String,
    pub stderr: String,
    pub duration_ms: u64,
}

/// The verdict on what a launch produced.
#[derive(Debug)]
pub struct Verdict {
    pub status: Status,
    pub exit_code: Option<i32>,
    pub reboot_required: bool,
    pub stdout: String,
    pub stderr: String,
    pub duration_ms: u64,
}

/// How an execution ended, by the declared codes: a success code or a reboot
/// code is success, a deadline is a timeout, anything else is a failure.
pub open spec fn verdict_on(action: Action, exit_code: Option<i32>) -> Status {
    match exit_code {
        None => Status::TimedOut,
        Some(code) => if action.reboot_codes@.contains(code) || action.successes().contains(code) {
            Status::Completed
        } else {
            Status::Failed
        },
    }
}

/// Judges an exit code by the declared codes: a success code or a reboot
/// code is success (the latter with a reboot pending), a deadline is a
/// timeout, anything else is a failure.
pub fn judge(action: &Action, captured: &Captured) -> (r: Verdict)
    ensures
        r.status == verdict_on(*action, captured.exit_code),
        r.exit_code == captured.exit_code,
        r.reboot_required == (captured.exit_code matches Some(code)
            && action.reboot_codes@.contains(code)),
        r.stdout@ == captured.stdout@,
        r.stderr@ == captured.stderr@,
        r.duration_ms == captured.duration_ms,
{
    let (status, reboot_required) = match captured.exit_code {
        None => (Status::TimedOut, false),
        Some(code) => if lists::has_code(&action.reboot_codes, code) {
            (Status::Completed, true)
        } else if action.is_success(code) {
            (Status::Completed, false)
        } else {
            (Status::Failed, false)
        },
    };
    Verdict {
        status,
        exit_code: captured.exit_code,
        reboot_required,
        stdout: captured.stdout.clone(),
        stderr: captured.stderr.clone(),
        duration_ms: captured.duration_ms,
    }
}

/// A verdict for a program that could not be started.
pub fn launch_failed(duration_ms: u64) -> (r: Verdict)
    ensures
        r.status == Status::LaunchFailed,
        r.exit_code is None,
        !r.reboot_required,
        r.stdout@ == ""@,
        r.stderr@ == ""@,
        r.duration_ms == duration_ms,
{
    Verdict {
        status: Status::LaunchFailed,
        exit_code: None,
        reboot_required: false,
        stdout: text::owned(""),
        stderr: text::owned(""),
        duration_ms,
    }
}

/// How many bytes a text takes.
pub open spec fn size(s: Seq<char>) -> nat {
    encode_utf8(s).len()
}

fn width(c: char) -> (r: usize)
    ensures
        r == encode_scalar(c as u32).len(),
        1 <= r <= 4,
{
    let n = c as u32;
    if n <= 0x7f {
        1
    } else if n <= 0x7ff {
        2
    } else if n <= 0xffff {
        3
    } else {
        4
    }
}

proof fn lemma_size_first(s: Seq<char>)
    requires
        s.len() > 0,
    ensures
        size(s) == encode_scalar(s[0] as u32).len() + size(s.drop_first()),
        size(s) > size(s.drop_first()),
{
}

proof fn lemma_size_grows(s: Seq<char>, i: int, j: int)
    requires
        0 <= i <= j <= s.len(),
    ensures
        size(s.skip(i)) >= size(s.skip(j)),
    decreases j - i,
{
    if i < j {
        lemma_size_grows(s, i + 1, j);
        lemma_size_first(s.skip(i));
        assert(s.skip(i).drop_first() =~= s.skip(i + 1));
    }
}

/// Whether a text is the longest end of a stream that is not longer than
/// `OUTPUT_TAIL_BYTES`.
pub open spec fn is_tail(end: Seq<char>, stream: Seq<char>) -> bool {
    exists|k: int|
        0 <= k <= stream.len() && end == #[trigger] stream.skip(k) && size(end)
            <= OUTPUT_TAIL_BYTES && (k > 0 ==> size(stream.skip(k - 1)) > OUTPUT_TAIL_BYTES)
}

/// The last `OUTPUT_TAIL_BYTES` of a stream, on a character boundary.
pub fn tail(stream: &str) -> (r: String)
    ensures
        is_tail(r@, stream@),
{
    let v = text::chars_of(stream);
    let n: usize = v.len();
    let mut k: usize = n;
    let mut bytes: usize = 0;
    assert(v@.skip(n as int) =~= Seq::<char>::empty());
    while k > 0 && bytes + width(v[k - 1]) <= OUTPUT_TAIL_BYTES
        invariant
            k <= n == v@.len(),
            v@ == stream@,
            bytes == size(v@.skip(k as int)),
            bytes <= OUTPUT_TAIL_BYTES,
        decreases k,
    {
        proof {
            lemma_size_first(v@.skip(k - 1));
            assert(v@.skip(k - 1).drop_first() =~= v@.skip(k as int));
        }
        k = k - 1;
        bytes = bytes + width(v[k]);
    }
    proof {
        if k > 0 {
            lemma_size_first(v@.skip(k - 1));
            assert(v@.skip(k - 1).drop_first() =~= v@.skip(k as int));
        }
    }
    let end = text::slice_of(&v, k, n);
    assert(end@ =~= v@.skip(k as int));
    text::string_of(&end)
}

/// Whether a verdict lets the transaction go on, by the action's policy.
pub fn continues(action: &Action, verdict: &Verdict) -> (r: bool)
    ensures
        r == (verdict.status == Status::Completed || action.on_failure
            == ActionFailurePolicy::Continue),
{
    matches!(verdict.status, Status::Completed) || matches!(
        action.on_failure,
        ActionFailurePolicy::Continue
    )
}

/// How an action ended, in words.
pub open spec fn ending(action: Action, status: Status, exit_code: Option<i32>) -> Seq<char> {
    let subject = "action "@ + action.name@ + " ("@ + action.phase.name() + ")"@;
    match status {
        Status::Completed => subject + " completed"@,
        Status::Failed => subject + " exited with code "@ + text::signed_decimal(
            match exit_code {
                Some(code) => code as int,
                None => 0,
            },
        ),
        Status::TimedOut => subject + " was killed after "@ + text::decimal(
            action.timeout_seconds as nat,
        ) + " s"@,
        Status::LaunchFailed => subject + " could not be started"@,
    }
}

/// The message a failed action stops the run with.
pub fn failure_message(action: &Action, verdict: &Verdict) -> (r: String)
    ensures
        r@ == ending(*action, verdict.status, verdict.exit_code),
{
    let subject = text::cat5(
        "action ",
        action.name.as_str(),
        " (",
        action.phase.as_str(),
        ")",
    );
    match verdict.status {
        Status::Completed => text::cat2(subject.as_str(), " completed"),
        Status::Failed => {
            let code = match verdict.exit_code {
                Some(code) => code as i64,
                None => 0,
            };
            let code = text::signed_decimal_of(code);
            text::cat3(subject.as_str(), " exited with code ", code.as_str())
        },
        Status::TimedOut => {
            let seconds = text::decimal_of(action.timeout_seconds as u64);
            text::cat4(subject.as_str(), " was killed after ", seconds.as_str(), " s")
        },
        Status::LaunchFailed => text::cat2(subject.as_str(), " could not be started"),
    }
}

/// A run never takes a killed or unstarted program for a completed one, and
/// only a completed one asks for a restart.
pub proof fn lemma_only_a_declared_code_completes(action: Action, exit_code: Option<i32>)
    ensures
        verdict_on(action, exit_code) == Status::Completed ==> (exit_code matches Some(code)
            && (action.reboot_codes@.contains(code) || action.successes().contains(code))),
        (exit_code matches Some(code) && action.reboot_codes@.contains(code)) ==> verdict_on(
            action,
            exit_code,
        ) == Status::Completed,
        verdict_on(action, None) == Status::TimedOut,
{
}

}
