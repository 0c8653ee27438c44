//! Migration from the installer technology a product used before:
//! uninstall-first, once, through the old installer's own uninstaller.
//!
//! The engine never takes ownership of files another installer put on the
//! machine and never rewrites its bookkeeping. It asks that installer to
//! remove its own installation, checks that it did, and only then installs
//! the product. The phase runs after the dependency phase and before the
//! product transaction, outside it: a migration that fails leaves the machine
//! holding exactly what it held before.
//!
//! The evidence that the removal worked is the registration key disappearing,
//! not the exit code alone.

use vstd::prelude::*;

use crate::error::{Error, ErrorView};
use crate::lists;
use crate::machine::{DataView, KeyPath, KeyView, Machine};
use crate::metadata::{Legacy, Scope};
use crate::report::documents::LegacyInfo;
use crate::scope;
use crate::scope::Locations;
use crate::text;

verus! {

/// How long the registration key may take to disappear after the
/// uninstaller's process has exited, in milliseconds.
pub const KEY_REMOVAL_TIMEOUT: u64 = 10_000;

/// How long to wait between two looks at the key, in milliseconds.
pub const KEY_REMOVAL_POLL: u64 = 200;

/// The switches that make a legacy uninstaller of a type unattended.
pub open spec fn switches(installer_type: Seq<char>) -> Seq<Seq<char>> {
    if installer_type == "inno"@ {
        seq!["/VERYSILENT"@, "/SUPPRESSMSGBOXES"@, "/NORESTART"@]
    } else {
        Seq::empty()
    }
}

/// The switches that make each supported legacy uninstaller unattended, used
/// only when it published no `QuietUninstallString` of its own.
pub fn quiet_switches(installer_type: &str) -> (r: Vec<String>)
    ensures
        text::views(r@) == switches(installer_type@),
{
    let mut out: Vec<String> = Vec::new();
    if text::same(installer_type, "inno") {
        out.push(text::owned("/VERYSILENT"));
        out.push(text::owned("/SUPPRESSMSGBOXES"));
        out.push(text::owned("/NORESTART"));
    }
    assert(text::views(out@) =~= switches(installer_type@));
    out
}

/// Where a legacy registration may be in a scope.
pub open spec fn candidates(scope: Scope, key_name: Seq<char>) -> Seq<KeyView> {
    let own = scope::uninstall_root(scope).child(key_name);
    match scope {
        Scope::User => seq![own],
        Scope::Machine => seq![
            own,
            KeyView {
                hive: scope::hive_of(scope),
                subkey: "Software\\WOW6432Node\\Microsoft\\Windows\\CurrentVersion\\Uninstall\\"@
                    + key_name,
            },
        ],
    }
}

/// Where a legacy registration may be: the scope's own Add/Remove Programs
/// root, plus the 32-bit view of it for machine scope, because a 32-bit
/// legacy installer registered under `WOW6432Node`.
pub fn candidate_keys(locations: &Locations, key_name: &str) -> (r: Vec<KeyPath>)
    requires
        locations.well_formed(),
    ensures
        text::views(r@) == candidates(locations.scope, key_name@),
{
    let mut keys: Vec<KeyPath> = Vec::new();
    keys.push(locations.registration_key(key_name));
    if matches!(locations.scope, Scope::Machine) {
        let subkey = text::cat2(
            "Software\\WOW6432Node\\Microsoft\\Windows\\CurrentVersion\\Uninstall\\",
            key_name,
        );
        keys.push(KeyPath::new(locations.hive, subkey.as_str()));
    }
    assert(text::views(keys@) =~= candidates(locations.scope, key_name@));
    keys
}

/// What splitting an argument tail has come to: the arguments that are
/// finished, the one under way, and whether it stands in quotes.
#[verifier::ext_equal]
pub struct Splitting {
    pub done: Seq<Seq<char>>,
    pub current: Seq<char>,
    pub quoted: bool,
}

/// Splitting a text: whitespace outside quotes ends an argument, a quote
/// opens or closes a run that keeps its whitespace.
pub open spec fn splitting(s: Seq<char>) -> Splitting
    decreases s.len(),
{
    if s.len() == 0 {
        Splitting { done: Seq::empty(), current: Seq::empty(), quoted: false }
    } else {
        let before = splitting(s.drop_last());
        let c = s.last();
        if c == '"' {
            Splitting { quoted: !before.quoted, ..before }
        } else if text::is_white(c) && !before.quoted {
            if before.current.len() == 0 {
                before
            } else {
                Splitting {
                    done: before.done.push(before.current),
                    current: Seq::empty(),
                    quoted: before.quoted,
                }
            }
        } else {
            Splitting { current: before.current.push(c), ..before }
        }
    }
}

/// The arguments of a tail.
pub open spec fn arguments_in(s: Seq<char>) -> Seq<Seq<char>> {
    let end = splitting(s);
    if end.current.len() == 0 {
        end.done
    } else {
        end.done.push(end.current)
    }
}

/// Splits an argument tail on whitespace, keeping quoted runs together.
pub fn split_arguments(tail: &str) -> (r: Vec<String>)
    ensures
        text::views(r@) == arguments_in(tail@),
{
    let v = text::chars_of(tail);
    let mut out: Vec<String> = Vec::new();
    let mut current = String::new();
    let mut quoted = false;
    let mut some = false;
    let mut i: usize = 0;
    assert(v@.take(0) =~= Seq::<char>::empty());
    assert(text::views(out@) =~= Seq::<Seq<char>>::empty());
    while i < v.len()
        invariant
            i <= v@.len(),
            v@ == tail@,
            some == (current@.len() > 0),
            splitting(v@.take(i as int)) == (Splitting {
                done: text::views(out@),
                current: current@,
                quoted,
            }),
        decreases v@.len() - i,
    {
        assert(v@.take(i + 1).drop_last() =~= v@.take(i as int));
        let c = v[i];
        if c == '"' {
            quoted = !quoted;
        } else if text::is_white_space(c) && !quoted {
            if some {
                proof {
                    text::lemma_views_push(out@, current);
                }
                out.push(current);
                current = String::new();
                some = false;
                assert(current@ =~= Seq::<char>::empty());
            }
        } else {
            current.push(c);
            some = true;
        }
        i = i + 1;
    }
    assert(v@.take(i as int) =~= v@);
    if some {
        proof {
            text::lemma_views_push(out@, current);
        }
        out.push(current);
    }
    out
}

/// No argument of a tail is empty.
pub proof fn lemma_arguments_are_not_empty(s: Seq<char>)
    ensures
        forall|i: int|
            0 <= i < arguments_in(s).len() ==> (#[trigger] arguments_in(s)[i]).len() > 0,
        forall|i: int|
            0 <= i < splitting(s).done.len() ==> (#[trigger] splitting(s).done[i]).len() > 0,
    decreases s.len(),
{
    if s.len() > 0 {
        lemma_arguments_are_not_empty(s.drop_last());
        let before = splitting(s.drop_last());
        let after = splitting(s);
        assert forall|i: int| 0 <= i < after.done.len() implies (#[trigger] after.done[i]).len()
            > 0 by {
            if i < before.done.len() {
                assert(after.done[i] == before.done[i]);
            }
        }
    }
    let end = splitting(s);
    assert forall|i: int| 0 <= i < arguments_in(s).len() implies (#[trigger] arguments_in(
        s,
    )[i]).len() > 0 by {
        if i < end.done.len() {
            assert(arguments_in(s)[i] == end.done[i]);
        }
    }
}

/// The longest prefix of `s`, up to `k`, that ends at a space and is a file
/// on the machine.
pub open spec fn file_prefix(s: Seq<char>, k: int, machine: Machine) -> Option<int>
    decreases k,
{
    if k <= 0 {
        None
    } else if s[k - 1] == ' ' && machine.file(s.take(k - 1)) is Some {
        Some(k - 1)
    } else {
        file_prefix(s, k - 1, machine)
    }
}

/// A published uninstall string as its program and arguments.
pub open spec fn parts(published: Seq<char>, machine: Machine) -> (Seq<char>, Seq<Seq<char>>) {
    let s = text::trim(published);
    if s.len() > 0 && s[0] == '"' {
        let rest = s.drop_first();
        match text::find(rest, '"') {
            Some(end) => (rest.take(end), arguments_in(rest.skip(end + 1))),
            None => (rest, Seq::empty()),
        }
    } else {
        match file_prefix(s, s.len() as int, machine) {
            Some(end) => (s.take(end), arguments_in(s.skip(end))),
            None => match text::find(s, ' ') {
                Some(end) => (s.take(end), arguments_in(s.skip(end + 1))),
                None => (s, Seq::empty()),
            },
        }
    }
}

fn find_file_prefix(v: &Vec<char>, machine: &Machine) -> (r: Option<usize>)
    ensures
        match r {
            Some(end) => end < v@.len() && file_prefix(v@, v@.len() as int, *machine) == Some(
                end as int,
            ),
            None => file_prefix(v@, v@.len() as int, *machine) is None,
        },
{
    let mut k: usize = v.len();
    while k > 0
        invariant
            k <= v@.len(),
            file_prefix(v@, v@.len() as int, *machine) == file_prefix(v@, k as int, *machine),
        decreases k,
    {
        if v[k - 1] == ' ' {
            let prefix = text::slice_of(v, 0, k - 1);
            assert(prefix@ =~= v@.take(k - 1));
            let prefix = text::string_of(&prefix);
            if machine.inspect_file(prefix.as_str()).is_some() {
                return Some(k - 1);
            }
        }
        k = k - 1;
    }
    None
}

/// Splits a published uninstall string into its program and arguments. A
/// quoted program may contain spaces; an unquoted one ends at the first space
/// that is not inside the path of an existing file: some old registrations
/// publish `C:\Program Files\App\unins000.exe /X` without quotes.
pub fn split_command(published: &str, machine: &Machine) -> (r: (String, Vec<String>))
    ensures
        (r.0@, text::views(r.1@)) == parts(published@, *machine),
{
    let trimmed = text::trim_of(published);
    let v = text::chars_of(trimmed.as_str());
    let n: usize = v.len();
    if n > 0 && v[0] == '"' {
        let ghost rest = v@.drop_first();
        assert(rest =~= v@.skip(1));
        proof {
            text::lemma_find(rest, '"');
        }
        match text::find_from(&v, 1, '"') {
            Some(end) => {
                let program = text::slice_of(&v, 1, end);
                let tail = text::slice_of(&v, end + 1, n);
                assert(program@ =~= rest.take(end - 1));
                assert(tail@ =~= rest.skip(end - 1 + 1));
                let tail = text::string_of(&tail);
                return (text::string_of(&program), split_arguments(tail.as_str()));
            },
            None => {
                let program = text::slice_of(&v, 1, n);
                assert(program@ =~= rest);
                let none: Vec<String> = Vec::new();
                assert(text::views(none@) =~= Seq::<Seq<char>>::empty());
                return (text::string_of(&program), none);
            },
        }
    }
    match find_file_prefix(&v, machine) {
        Some(end) => {
            let program = text::slice_of(&v, 0, end);
            let tail = text::slice_of(&v, end, n);
            assert(program@ =~= v@.take(end as int));
            assert(tail@ =~= v@.skip(end as int));
            let tail = text::string_of(&tail);
            (text::string_of(&program), split_arguments(tail.as_str()))
        },
        None => {
            proof {
                text::lemma_find(v@, ' ');
                assert(v@.skip(0) =~= v@);
            }
            match text::find_from(&v, 0, ' ') {
                Some(end) => {
                    let program = text::slice_of(&v, 0, end);
                    let tail = text::slice_of(&v, end + 1, n);
                    assert(program@ =~= v@.take(end as int));
                    assert(tail@ =~= v@.skip(end + 1));
                    let tail = text::string_of(&tail);
                    (text::string_of(&program), split_arguments(tail.as_str()))
                },
                None => {
                    let none: Vec<String> = Vec::new();
                    assert(text::views(none@) =~= Seq::<Seq<char>>::empty());
                    (trimmed, none)
                },
            }
        },
    }
}

/// The text of a value a registration publishes: nothing where it is none, or
/// blank.
pub open spec fn published(machine: Machine, key: KeyView, name: Seq<char>) -> Option<Seq<char>> {
    match machine.value(key, name) {
        Some(DataView::String(s)) => nonblank(s),
        Some(DataView::ExpandString(s)) => nonblank(s),
        _ => None,
    }
}

/// A text without the whitespace around it, where anything is left.
pub open spec fn nonblank(s: Seq<char>) -> Option<Seq<char>> {
    if text::trim(s).len() == 0 {
        None
    } else {
        Some(text::trim(s))
    }
}

fn read(machine: &Machine, key: &KeyPath, name: &str) -> (r: Option<String>)
    ensures
        text::option_view(r) == published(*machine, key@, name@),
{
    match machine.read_value(key, name) {
        None => None,
        Some(data) => match data.as_text() {
            None => None,
            Some(s) => {
                let trimmed = text::trim_of(s);
                if trimmed.as_str().is_empty() {
                    None
                } else {
                    Some(trimmed)
                }
            },
        },
    }
}

/// The uninstall command a registration publishes.
pub open spec fn command_of(machine: Machine, key: KeyView, installer_type: Seq<char>) -> Option<
    (Seq<char>, Seq<Seq<char>>),
> {
    match published(machine, key, "QuietUninstallString"@) {
        Some(quiet) => {
            let (program, arguments) = parts(quiet, machine);
            Some(
                if arguments.len() == 0 {
                    (program, switches(installer_type))
                } else {
                    (program, arguments)
                },
            )
        },
        None => match published(machine, key, "UninstallString"@) {
            Some(plain) => {
                let (program, arguments) = parts(plain, machine);
                Some((program, arguments + switches(installer_type)))
            },
            None => None,
        },
    }
}

/// The uninstall command a registration publishes: its quiet form, or its
/// interactive form with the type's quiet switches appended. A published
/// quiet string is already unattended; the switches are added only where they
/// are missing entirely.
pub fn command(machine: &Machine, key: &KeyPath, installer_type: &str) -> (r: Option<
    (String, Vec<String>),
>)
    ensures
        match (r, command_of(*machine, key@, installer_type@)) {
            (Some((program, arguments)), Some(s)) => (program@, text::views(arguments@)) == s,
            (None, None) => true,
            _ => false,
        },
{
    match read(machine, key, "QuietUninstallString") {
        Some(quiet) => {
            let (program, arguments) = split_command(quiet.as_str(), machine);
            if arguments.len() == 0 {
                Some((program, quiet_switches(installer_type)))
            } else {
                Some((program, arguments))
            }
        },
        None => match read(machine, key, "UninstallString") {
            Some(plain) => {
                let (program, mut arguments) = split_command(plain.as_str(), machine);
                let mut extra = quiet_switches(installer_type);
                proof {
                    text::lemma_views_concat(arguments@, extra@);
                }
                arguments.append(&mut extra);
                Some((program, arguments))
            },
            None => None,
        },
    }
}

/// What the migration phase has to do.
#[derive(Debug)]
pub enum Migration {
    /// The package declares no legacy installation, or this machine holds
    /// none.
    Nothing,
    /// The registration's own uninstaller is to be run.
    Uninstall { key: KeyPath, program: String, arguments: Vec<String> },
}

/// Holds of the keys the machine has.
pub open spec fn is_registered(machine: Machine) -> spec_fn(KeyView) -> bool {
    |k: KeyView| machine.has_key(k)
}

/// The legacy registration this machine holds.
pub open spec fn registration_of(legacy: Option<Legacy>, scope: Scope, machine: Machine) -> Option<
    KeyView,
> {
    match legacy {
        None => None,
        Some(l) => lists::first(candidates(scope, l.registration_key@), is_registered(machine)),
    }
}

/// What a registration without an uninstall command is refused with.
pub open spec fn no_command(key: KeyView) -> ErrorView {
    ErrorView {
        code: "legacy_uninstall_failed"@,
        message: key.text() + " publishes no uninstall command"@,
    }
}

/// Decides what the migration of a package that declares one has to do.
pub fn migrate(legacy: Option<&Legacy>, locations: &Locations, machine: &Machine) -> (r: Result<
    Migration,
    Error,
>)
    requires
        locations.well_formed(),
    ensures
        match registration_of(
            match legacy {
                Some(l) => Some(*l),
                None => None,
            },
            locations.scope,
            *machine,
        ) {
            None => r matches Ok(Migration::Nothing),
            Some(key) => match command_of(*machine, key, legacy->Some_0.installer_type@) {
                None => r matches Err(e) && e@ == no_command(key),
                Some(command) => r matches Ok(
                    Migration::Uninstall { key: k, program, arguments },
                ) && k@ == key && (program@, text::views(arguments@)) == command,
            },
        },
{
    let declared = match legacy {
        None => {
            return Ok(Migration::Nothing);
        },
        Some(l) => l,
    };
    let keys = candidate_keys(locations, declared.registration_key.as_str());
    let ghost all = text::views(keys@);
    let ghost p = is_registered(*machine);
    let mut i: usize = 0;
    while i < keys.len()
        invariant
            i <= keys@.len(),
            all == text::views(keys@),
            legacy == Some(declared),
            all == candidates(locations.scope, declared.registration_key@),
            p == is_registered(*machine),
            forall|j: int| 0 <= j < i ==> !p(#[trigger] all[j]),
        decreases keys@.len() - i,
    {
        assert(all[i as int] == keys@[i as int]@);
        if machine.key_exists(&keys[i]) {
            proof {
                lists::lemma_first_at(all, p, i as int);
            }
            return match command(machine, &keys[i], declared.installer_type.as_str()) {
                Some((program, arguments)) => Ok(
                    Migration::Uninstall { key: keys[i].clone(), program, arguments },
                ),
                None => {
                    let name = keys[i].to_string();
                    let message = text::cat2(name.as_str(), " publishes no uninstall command");
                    Err(Error::new("legacy_uninstall_failed", message.as_str()))
                },
            };
        }
        i = i + 1;
    }
    proof {
        lists::lemma_first_none(all, p);
    }
    Ok(Migration::Nothing)
}

/// How running the legacy uninstaller ended.
#[derive(Debug)]
pub enum Ran {
    /// It could not be started.
    NotStarted(String),
    /// It exited with this code.
    Exited(i32),
}

/// What a migration that did not work is refused with.
pub open spec fn failed(key: KeyView, program: Seq<char>, ran: Ran) -> ErrorView {
    ErrorView {
        code: "legacy_uninstall_failed"@,
        message: match ran {
            Ran::NotStarted(why) => program + " could not be run: "@ + why@,
            Ran::Exited(code) => if code != 0 {
                program + " exited with "@ + text::signed_decimal(code as int)
            } else {
                program + " reported success but "@ + key.text() + " is still registered"@
            },
        },
    }
}

/// What the migration comes to, once the uninstaller has run: it worked when
/// the uninstaller exited with 0 and the registration key is gone.
pub fn migrated(key: &KeyPath, program: &str, ran: Ran, still_registered: bool) -> (r: Result<
    LegacyInfo,
    Error,
>)
    ensures
        match r {
            Ok(info) => ran == Ran::Exited(0) && !still_registered && info.key@ == key@.text()
                && info.uninstalled,
            Err(e) => (ran != Ran::Exited(0) || still_registered) && e@ == failed(
                key@,
                program@,
                ran,
            ),
        },
{
    let name = key.to_string();
    match ran {
        Ran::NotStarted(why) => {
            let message = text::cat3(program, " could not be run: ", why.as_str());
            Err(Error::new("legacy_uninstall_failed", message.as_str()))
        },
        Ran::Exited(code) => {
            if code != 0 {
                let shown = text::signed_decimal_of(code as i64);
                let message = text::cat3(program, " exited with ", shown.as_str());
                Err(Error::new("legacy_uninstall_failed", message.as_str()))
            } else if still_registered {
                let message = text::cat4(
                    program,
                    " reported success but ",
                    name.as_str(),
                    " is still registered",
                );
                Err(Error::new("legacy_uninstall_failed", message.as_str()))
            } else {
                Ok(LegacyInfo { key: name, uninstalled: true })
            }
        },
    }
}

/// What waiting for the key to go away does next.
#[derive(Debug, Clone, Copy, PartialEq, Eq, Structural)]
pub enum Wait {
    /// The key is gone.
    Gone,
    /// The time is over and the key is still there.
    StillThere,
    /// Look again after a pause.
    Again,
}

/// Decides, at one look, whether to go on waiting for the registration key to
/// go away: a legacy uninstaller commonly finishes a moment after the process
/// that was waited for has exited.
pub fn key_disappears(registered: bool, waited: u64) -> (r: Wait)
    ensures
        r == if !registered {
            Wait::Gone
        } else if waited >= KEY_REMOVAL_TIMEOUT {
            Wait::StillThere
        } else {
            Wait::Again
        },
{
    if !registered {
        Wait::Gone
    } else if waited >= KEY_REMOVAL_TIMEOUT {
        Wait::StillThere
    } else {
        Wait::Again
    }
}

/// Plain characters go on with the word that is open.
proof fn lemma_a_word_goes_on(s: Seq<char>, word: Seq<char>)
    requires
        forall|i: int| 0 <= i < word.len() ==> #[trigger] word[i] != '"',
        splitting(s).quoted || forall|i: int|
            0 <= i < word.len() ==> !text::is_white(#[trigger] word[i]),
    ensures
        splitting(s + word) == (Splitting {
            current: splitting(s).current + word,
            ..splitting(s)
        }),
    decreases word.len(),
{
    if word.len() == 0 {
        assert(s + word =~= s);
        assert(splitting(s).current + word =~= splitting(s).current);
    } else {
        let less = word.drop_last();
        assert((s + word).drop_last() =~= s + less);
        assert((s + word).last() == word[word.len() - 1]);
        lemma_a_word_goes_on(s, less);
        assert(splitting(s).current + word =~= (splitting(s).current + less).push(word.last()));
    }
}

/// Words that blanks part are arguments of their own, and quotes keep one that
/// holds blanks together.
pub proof fn lemma_arguments_are_the_words(s: Seq<char>, word: Seq<char>)
    requires
        !splitting(s).quoted,
        word.len() > 0,
        !word.contains('"'),
    ensures
        (forall|i: int| 0 <= i < word.len() ==> !text::is_white(#[trigger] word[i]))
            ==> arguments_in(s + seq![' '] + word) == arguments_in(s).push(word),
        arguments_in(s + seq![' '] + (seq!['"'] + word + seq!['"'])) == arguments_in(s).push(word),
        arguments_in(s + seq![' ']) == arguments_in(s),
        !splitting(s + seq![' ']).quoted,
{
    let spaced = s + seq![' '];
    assert(spaced.drop_last() =~= s);
    assert(text::is_white(' '));
    let after = splitting(spaced);
    assert(after.current.len() == 0 && !after.quoted);
    assert(after.done == arguments_in(s));
    assert forall|i: int| 0 <= i < word.len() implies #[trigger] word[i] != '"' by {
        assert(word.contains(word[i]));
    }
    if forall|i: int| 0 <= i < word.len() ==> !text::is_white(#[trigger] word[i]) {
        lemma_a_word_goes_on(spaced, word);
        assert(after.current + word =~= word);
    }
    let open = spaced + seq!['"'];
    assert(open.drop_last() =~= spaced);
    lemma_a_word_goes_on(open, word);
    assert(splitting(open).current + word =~= word);
    let closed = open + word + seq!['"'];
    assert(closed.drop_last() =~= open + word);
    assert(s + seq![' '] + (seq!['"'] + word + seq!['"']) =~= closed);
}

/// A published command whose program stands in quotes names what is between
/// them, and its arguments follow.
pub proof fn lemma_a_quoted_program(program: Seq<char>, rest: Seq<char>, machine: Machine)
    requires
        !program.contains('"'),
        text::trim(seq!['"'] + program + seq!['"'] + rest) == seq!['"'] + program + seq!['"']
            + rest,
    ensures
        parts(seq!['"'] + program + seq!['"'] + rest, machine) == (program, arguments_in(rest)),
{
    let s = seq!['"'] + program + seq!['"'] + rest;
    let inner = s.drop_first();
    let n = program.len() as int;
    assert(inner =~= program + seq!['"'] + rest);
    assert forall|j: int| 0 <= j < n implies #[trigger] inner[j] != '"' by {
        assert(inner[j] == program[j]);
        assert(program.contains(program[j]));
    }
    text::lemma_find_at(inner, '"', n);
    assert(inner.take(n) =~= program);
    assert(inner.skip(n + 1) =~= rest);
}

/// Without quotes the program is the longest beginning, up to a blank, that is
/// a file of the machine.
pub proof fn lemma_the_longest_file_is_the_program(s: Seq<char>, k: int, machine: Machine)
    requires
        0 <= k <= s.len(),
    ensures
        match file_prefix(s, k, machine) {
            Some(n) => {
                &&& 0 <= n < k
                &&& s[n] == ' '
                &&& machine.file(s.take(n)) is Some
                &&& forall|j: int|
                    n < j < k && #[trigger] s[j] == ' ' ==> machine.file(s.take(j)) is None
            },
            None => forall|j: int|
                0 <= j < k && #[trigger] s[j] == ' ' ==> machine.file(s.take(j)) is None,
        },
    decreases k,
{
    if k > 0 {
        lemma_the_longest_file_is_the_program(s, k - 1, machine);
    }
}

/// The command that removes the installation that is replaced: the quiet one
/// as it is published, given switches only where it has no arguments, or else
/// the plain one with the switches of its kind.
pub proof fn lemma_which_command_removes_it(machine: Machine, key: KeyView, kind: Seq<char>)
    ensures
        ({
            let quiet = published(machine, key, "QuietUninstallString"@);
            let plain = published(machine, key, "UninstallString"@);
            let r = command_of(machine, key, kind);
            let silent = seq!["/VERYSILENT"@, "/SUPPRESSMSGBOXES"@, "/NORESTART"@];
            &&& r is None <==> quiet is None && plain is None
            &&& quiet is Some ==> r->Some_0.0 == parts(quiet->Some_0, machine).0
            &&& quiet is Some && parts(quiet->Some_0, machine).1.len() > 0 ==> r->Some_0.1 == parts(
                quiet->Some_0,
                machine,
            ).1
            &&& quiet is None && plain is Some ==> r->Some_0.0 == parts(plain->Some_0, machine).0
            &&& kind == "inno"@ && quiet is Some && parts(quiet->Some_0, machine).1.len() == 0
                ==> r->Some_0.1 == silent
            &&& kind == "inno"@ && quiet is None && plain is Some ==> r->Some_0.1 == parts(
                plain->Some_0,
                machine,
            ).1 + silent
            &&& kind != "inno"@ && quiet is None && plain is Some ==> r->Some_0.1 == parts(
                plain->Some_0,
                machine,
            ).1
        }),
{
    let quiet = published(machine, key, "QuietUninstallString"@);
    let plain = published(machine, key, "UninstallString"@);
    if kind != "inno"@ && quiet is None && plain is Some {
        assert(parts(plain->Some_0, machine).1 + Seq::<Seq<char>>::empty() =~= parts(
            plain->Some_0,
            machine,
        ).1);
    }
}

/// The installation that is replaced is looked for under the scope's own key,
/// and, for the whole machine, under the one for 32-bit programs too.
pub proof fn lemma_where_the_replaced_is_looked_for(
    legacy: Option<Legacy>,
    scope: Scope,
    machine: Machine,
)
    ensures
        ({
            let r = registration_of(legacy, scope, machine);
            let name = legacy->Some_0.registration_key@;
            let own = scope::uninstall_root(scope).child(name);
            let other = KeyView {
                hive: crate::machine::Hive::LocalMachine,
                subkey: "Software\\WOW6432Node\\Microsoft\\Windows\\CurrentVersion\\Uninstall\\"@
                    + name,
            };
            &&& legacy is None ==> r is None
            &&& legacy is Some && machine.has_key(own) ==> r == Some(own)
            &&& legacy is Some && !machine.has_key(own) && scope == Scope::Machine
                && machine.has_key(other) ==> r == Some(other)
            &&& legacy is Some && !machine.has_key(own) && (scope == Scope::User
                || !machine.has_key(other)) ==> r is None
        }),
{
    if legacy is Some {
        let list = candidates(scope, legacy->Some_0.registration_key@);
        let p = is_registered(machine);
        if p(list[0]) {
            lists::lemma_first_at(list, p, 0);
        } else if list.len() > 1 && p(list[1]) {
            lists::lemma_first_at(list, p, 1);
        } else {
            lists::lemma_first_none(list, p);
        }
    }
}

}
