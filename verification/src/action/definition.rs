//! What a package declares of an action and of the program it stops around
//! a run, and the definition as the journal and the ownership record carry
//! it: every field as text, packed, in hexadecimal.

use vstd::prelude::*;
use vstd::string::*;

use crate::action::encoding;
use crate::error::{Error, ErrorView};
use crate::lists;
use crate::metadata::Predicate;
use crate::packed;
use crate::text;

verus! {

/// When an action runs.
#[derive(Debug, Clone, Copy, PartialEq, Eq, Structural, Default)]
pub enum ActionPhase {
    #[default]
    PreInstall,
    PostInstall,
    PreUninstall,
    PostUninstall,
    /// Stopping a declared program before files change.
    Quiesce,
    /// Starting it again.
    Resume,
}

impl ActionPhase {
    /// The word of the phase.
    pub open spec fn name(self) -> Seq<char> {
        match self {
            ActionPhase::PreInstall => "pre-install"@,
            ActionPhase::PostInstall => "post-install"@,
            ActionPhase::PreUninstall => "pre-uninstall"@,
            ActionPhase::PostUninstall => "post-uninstall"@,
            ActionPhase::Quiesce => "quiesce"@,
            ActionPhase::Resume => "resume"@,
        }
    }

    /// The word of the phase.
    pub fn as_str(self) -> (r: &'static str)
        ensures
            r@ == self.name(),
    {
        match self {
            ActionPhase::PreInstall => "pre-install",
            ActionPhase::PostInstall => "post-install",
            ActionPhase::PreUninstall => "pre-uninstall",
            ActionPhase::PostUninstall => "post-uninstall",
            ActionPhase::Quiesce => "quiesce",
            ActionPhase::Resume => "resume",
        }
    }

    /// The phase a word names.
    pub open spec fn named(word: Seq<char>) -> Option<ActionPhase> {
        if word == "pre-install"@ {
            Some(ActionPhase::PreInstall)
        } else if word == "post-install"@ {
            Some(ActionPhase::PostInstall)
        } else if word == "pre-uninstall"@ {
            Some(ActionPhase::PreUninstall)
        } else if word == "post-uninstall"@ {
            Some(ActionPhase::PostUninstall)
        } else if word == "quiesce"@ {
            Some(ActionPhase::Quiesce)
        } else if word == "resume"@ {
            Some(ActionPhase::Resume)
        } else {
            None
        }
    }

    /// The phase a word names.
    pub fn from_word(word: &str) -> (r: Option<ActionPhase>)
        ensures
            r == ActionPhase::named(word@),
    {
        if text::same(word, "pre-install") {
            Some(ActionPhase::PreInstall)
        } else if text::same(word, "post-install") {
            Some(ActionPhase::PostInstall)
        } else if text::same(word, "pre-uninstall") {
            Some(ActionPhase::PreUninstall)
        } else if text::same(word, "post-uninstall") {
            Some(ActionPhase::PostUninstall)
        } else if text::same(word, "quiesce") {
            Some(ActionPhase::Quiesce)
        } else if text::same(word, "resume") {
            Some(ActionPhase::Resume)
        } else {
            None
        }
    }
}

/// The word of a phase names it.
pub proof fn lemma_actionphase_named(a: ActionPhase)
    ensures
        ActionPhase::named(a.name()) == Some(a),
{
    reveal_strlit("pre-install");
    reveal_strlit("post-install");
    reveal_strlit("pre-uninstall");
    reveal_strlit("post-uninstall");
    reveal_strlit("quiesce");
    reveal_strlit("resume");
    assert("pre-install"@.len() == 11);
    assert("post-install"@.len() == 12);
    assert("pre-uninstall"@.len() == 13);
    assert("post-uninstall"@.len() == 14);
    assert("quiesce"@.len() == 7);
    assert("resume"@.len() == 6);
}

/// How an action's program is started.
#[derive(Debug, Clone, Copy, PartialEq, Eq, Structural, Default)]
pub enum ActionKind {
    #[default]
    Exe,
    Powershell,
    Cmd,
}

impl ActionKind {
    /// The word of the kind.
    pub open spec fn name(self) -> Seq<char> {
        match self {
            ActionKind::Exe => "exe"@,
            ActionKind::Powershell => "powershell"@,
            ActionKind::Cmd => "cmd"@,
        }
    }

    /// The word of the kind.
    pub fn as_str(self) -> (r: &'static str)
        ensures
            r@ == self.name(),
    {
        match self {
            ActionKind::Exe => "exe",
            ActionKind::Powershell => "powershell",
            ActionKind::Cmd => "cmd",
        }
    }

    /// The kind a word names.
    pub open spec fn named(word: Seq<char>) -> Option<ActionKind> {
        if word == "exe"@ {
            Some(ActionKind::Exe)
        } else if word == "powershell"@ {
            Some(ActionKind::Powershell)
        } else if word == "cmd"@ {
            Some(ActionKind::Cmd)
        } else {
            None
        }
    }

    /// The kind a word names.
    pub fn from_word(word: &str) -> (r: Option<ActionKind>)
        ensures
            r == ActionKind::named(word@),
    {
        if text::same(word, "exe") {
            Some(ActionKind::Exe)
        } else if text::same(word, "powershell") {
            Some(ActionKind::Powershell)
        } else if text::same(word, "cmd") {
            Some(ActionKind::Cmd)
        } else {
            None
        }
    }
}

/// The word of a kind names it.
pub proof fn lemma_actionkind_named(a: ActionKind)
    ensures
        ActionKind::named(a.name()) == Some(a),
{
    reveal_strlit("exe");
    reveal_strlit("powershell");
    reveal_strlit("cmd");
    assert("exe"@.len() == 3);
    assert("powershell"@.len() == 10);
    assert("cmd"@.len() == 3);
    assert("exe"@[0] == 'e');
    assert("cmd"@[0] == 'c');
}

/// The lifecycle operation a run is.
#[derive(Debug, Clone, Copy, PartialEq, Eq, Structural, Default)]
pub enum ActionOperation {
    #[default]
    Install,
    Upgrade,
    Reinstall,
    Repair,
    Uninstall,
}

impl ActionOperation {
    /// The word of the operation.
    pub open spec fn name(self) -> Seq<char> {
        match self {
            ActionOperation::Install => "install"@,
            ActionOperation::Upgrade => "upgrade"@,
            ActionOperation::Reinstall => "reinstall"@,
            ActionOperation::Repair => "repair"@,
            ActionOperation::Uninstall => "uninstall"@,
        }
    }

    /// The word of the operation.
    pub fn as_str(self) -> (r: &'static str)
        ensures
            r@ == self.name(),
    {
        match self {
            ActionOperation::Install => "install",
            ActionOperation::Upgrade => "upgrade",
            ActionOperation::Reinstall => "reinstall",
            ActionOperation::Repair => "repair",
            ActionOperation::Uninstall => "uninstall",
        }
    }

    /// The operation a word names.
    pub open spec fn named(word: Seq<char>) -> Option<ActionOperation> {
        if word == "install"@ {
            Some(ActionOperation::Install)
        } else if word == "upgrade"@ {
            Some(ActionOperation::Upgrade)
        } else if word == "reinstall"@ {
            Some(ActionOperation::Reinstall)
        } else if word == "repair"@ {
            Some(ActionOperation::Repair)
        } else if word == "uninstall"@ {
            Some(ActionOperation::Uninstall)
        } else {
            None
        }
    }

    /// The operation a word names.
    pub fn from_word(word: &str) -> (r: Option<ActionOperation>)
        ensures
            r == ActionOperation::named(word@),
    {
        if text::same(word, "install") {
            Some(ActionOperation::Install)
        } else if text::same(word, "upgrade") {
            Some(ActionOperation::Upgrade)
        } else if text::same(word, "reinstall") {
            Some(ActionOperation::Reinstall)
        } else if text::same(word, "repair") {
            Some(ActionOperation::Repair)
        } else if text::same(word, "uninstall") {
            Some(ActionOperation::Uninstall)
        } else {
            None
        }
    }
}

/// The word of a operation names it.
pub proof fn lemma_actionoperation_named(a: ActionOperation)
    ensures
        ActionOperation::named(a.name()) == Some(a),
{
    reveal_strlit("install");
    reveal_strlit("upgrade");
    reveal_strlit("reinstall");
    reveal_strlit("repair");
    reveal_strlit("uninstall");
    assert("install"@.len() == 7);
    assert("upgrade"@.len() == 7);
    assert("reinstall"@.len() == 9);
    assert("repair"@.len() == 6);
    assert("uninstall"@.len() == 9);
    assert("install"@[0] == 'i');
    assert("upgrade"@[0] == 'u');
    assert("reinstall"@[0] == 'r');
    assert("uninstall"@[0] == 'u');
}

/// What a failed action does to the run.
#[derive(Debug, Clone, Copy, PartialEq, Eq, Structural, Default)]
pub enum ActionFailurePolicy {
    #[default]
    Fail,
    Continue,
}

impl ActionFailurePolicy {
    /// The word of the policy.
    pub open spec fn name(self) -> Seq<char> {
        match self {
            ActionFailurePolicy::Fail => "fail"@,
            ActionFailurePolicy::Continue => "continue"@,
        }
    }

    /// The word of the policy.
    pub fn as_str(self) -> (r: &'static str)
        ensures
            r@ == self.name(),
    {
        match self {
            ActionFailurePolicy::Fail => "fail",
            ActionFailurePolicy::Continue => "continue",
        }
    }

    /// The policy a word names.
    pub open spec fn named(word: Seq<char>) -> Option<ActionFailurePolicy> {
        if word == "fail"@ {
            Some(ActionFailurePolicy::Fail)
        } else if word == "continue"@ {
            Some(ActionFailurePolicy::Continue)
        } else {
            None
        }
    }

    /// The policy a word names.
    pub fn from_word(word: &str) -> (r: Option<ActionFailurePolicy>)
        ensures
            r == ActionFailurePolicy::named(word@),
    {
        if text::same(word, "fail") {
            Some(ActionFailurePolicy::Fail)
        } else if text::same(word, "continue") {
            Some(ActionFailurePolicy::Continue)
        } else {
            None
        }
    }
}

/// The word of a policy names it.
pub proof fn lemma_actionfailurepolicy_named(a: ActionFailurePolicy)
    ensures
        ActionFailurePolicy::named(a.name()) == Some(a),
{
    reveal_strlit("fail");
    reveal_strlit("continue");
    assert("fail"@.len() == 4);
    assert("continue"@.len() == 8);
}

impl ActionPhase {
    /// Whether the phase belongs to an installing run.
    pub open spec fn installs(self) -> bool {
        self == ActionPhase::PreInstall || self == ActionPhase::PostInstall
    }

    /// Whether the phase belongs to an installing run.
    pub fn is_install(self) -> (r: bool)
        ensures
            r == self.installs(),
    {
        matches!(self, ActionPhase::PreInstall | ActionPhase::PostInstall)
    }

    /// Whether the phase stands ahead of the resource operations.
    pub open spec fn precedes_resources(self) -> bool {
        self == ActionPhase::PreInstall || self == ActionPhase::PreUninstall
    }

    /// Whether the phase stands ahead of the resource operations.
    pub fn is_before(self) -> (r: bool)
        ensures
            r == self.precedes_resources(),
    {
        matches!(self, ActionPhase::PreInstall | ActionPhase::PreUninstall)
    }
}

/// An action a package declares.
#[derive(Debug, PartialEq, Eq)]
pub struct Action {
    pub name: String,
    pub phase: ActionPhase,
    /// The operations it runs on.
    pub run_on: Vec<ActionOperation>,
    pub kind: ActionKind,
    /// The program on the machine, for an action that is not packaged.
    pub command: String,
    /// The payload entry of a packaged program; empty otherwise.
    pub entry: String,
    /// The file name of a packaged program.
    pub file_name: String,
    pub sha256: String,
    pub size: u64,
    pub arguments: Vec<String>,
    /// Empty for the program's own directory.
    pub working_directory: String,
    pub timeout_seconds: u32,
    /// Empty for the one code 0.
    pub success_codes: Vec<i32>,
    pub reboot_codes: Vec<i32>,
    pub on_failure: ActionFailurePolicy,
    pub when: Option<Predicate>,
}

/// What an [`Action`] says.
#[verifier::ext_equal]
pub struct ActionView {
    pub name: Seq<char>,
    pub phase: ActionPhase,
    pub run_on: Seq<ActionOperation>,
    pub kind: ActionKind,
    pub command: Seq<char>,
    pub entry: Seq<char>,
    pub file_name: Seq<char>,
    pub sha256: Seq<char>,
    pub size: u64,
    pub arguments: Seq<Seq<char>>,
    pub working_directory: Seq<char>,
    pub timeout_seconds: u32,
    pub success_codes: Seq<i32>,
    pub reboot_codes: Seq<i32>,
    pub on_failure: ActionFailurePolicy,
    pub when: Option<(Seq<char>, Seq<char>)>,
}

impl View for Action {
    type V = ActionView;

    open spec fn view(&self) -> ActionView {
        ActionView {
            name: self.name@,
            phase: self.phase,
            run_on: self.run_on@,
            kind: self.kind,
            command: self.command@,
            entry: self.entry@,
            file_name: self.file_name@,
            sha256: self.sha256@,
            size: self.size,
            arguments: text::views(self.arguments@),
            working_directory: self.working_directory@,
            timeout_seconds: self.timeout_seconds,
            success_codes: self.success_codes@,
            reboot_codes: self.reboot_codes@,
            on_failure: self.on_failure,
            when: condition(self.when),
        }
    }
}

/// What a predicate asks: the option and the value.
pub open spec fn condition(when: Option<Predicate>) -> Option<(Seq<char>, Seq<char>)> {
    match when {
        Some(p) => Some((p.option@, p.equals@)),
        None => None,
    }
}

/// A program that is stopped around the file changes of a run.
#[derive(Debug, PartialEq, Eq)]
pub struct Quiescence {
    pub name: String,
    pub run_on: Vec<ActionOperation>,
    pub stop: Action,
    pub resume: Option<Action>,
    /// The exit codes of `stop` that say the program was not running.
    pub not_running_codes: Vec<i32>,
    pub when: Option<Predicate>,
}

/// What a [`Quiescence`] says.
#[verifier::ext_equal]
pub struct QuiescenceView {
    pub name: Seq<char>,
    pub run_on: Seq<ActionOperation>,
    pub stop: ActionView,
    pub resume: Option<ActionView>,
    pub not_running_codes: Seq<i32>,
    pub when: Option<(Seq<char>, Seq<char>)>,
}

impl View for Quiescence {
    type V = QuiescenceView;

    open spec fn view(&self) -> QuiescenceView {
        QuiescenceView {
            name: self.name@,
            run_on: self.run_on@,
            stop: self.stop@,
            resume: text::option_view(self.resume),
            not_running_codes: self.not_running_codes@,
            when: condition(self.when),
        }
    }
}

/// The words of a list of operations.
pub open spec fn operation_words(run_on: Seq<ActionOperation>) -> Seq<Seq<char>> {
    run_on.map_values(|op: ActionOperation| op.name())
}

/// The operation each word names.
pub open spec fn operations_named(words: Seq<Seq<char>>) -> Option<Seq<ActionOperation>> {
    if forall|i: int|
        0 <= i < words.len() ==> ActionOperation::named(#[trigger] words[i]) is Some {
        Some(words.map_values(|w: Seq<char>| ActionOperation::named(w)->Some_0))
    } else {
        None
    }
}

proof fn lemma_operations(run_on: Seq<ActionOperation>)
    ensures
        operations_named(operation_words(run_on)) == Some(run_on),
{
    let words = operation_words(run_on);
    assert forall|i: int| 0 <= i < words.len() implies ActionOperation::named(#[trigger] words[i])
        == Some(run_on[i]) by {
        lemma_actionoperation_named(run_on[i]);
    }
    assert(operations_named(words)->Some_0 =~= run_on);
}

fn words_of_operations(run_on: &Vec<ActionOperation>) -> (r: Vec<String>)
    ensures
        text::views(r@) == operation_words(run_on@),
{
    let mut out: Vec<String> = Vec::new();
    let mut i: usize = 0;
    while i < run_on.len()
        invariant
            i <= run_on@.len(),
            out@.len() == i,
            forall|j: int| 0 <= j < i ==> #[trigger] out@[j]@ == run_on@[j].name(),
        decreases run_on@.len() - i,
    {
        out.push(text::owned(run_on[i].as_str()));
        i = i + 1;
    }
    assert(text::views(out@) =~= operation_words(run_on@));
    out
}

fn operations_of_words(words: &Vec<String>) -> (r: Option<Vec<ActionOperation>>)
    ensures
        match r {
            Some(v) => operations_named(text::views(words@)) == Some(v@),
            None => operations_named(text::views(words@)) is None,
        },
{
    let mut out: Vec<ActionOperation> = Vec::new();
    let mut i: usize = 0;
    let ghost all = text::views(words@);
    while i < words.len()
        invariant
            all == text::views(words@),
            i <= words@.len(),
            out@.len() == i,
            forall|j: int| 0 <= j < i ==> ActionOperation::named(#[trigger] all[j]) == Some(out@[j]),
        decreases words@.len() - i,
    {
        match ActionOperation::from_word(words[i].as_str()) {
            Some(op) => {
                out.push(op);
            },
            None => {
                assert(ActionOperation::named(all[i as int]) is None);
                return None;
            },
        }
        i = i + 1;
    }
    assert(operations_named(all)->Some_0 =~= out@);
    Some(out)
}

/// The words of a list of exit codes.
pub open spec fn code_words(codes: Seq<i32>) -> Seq<Seq<char>> {
    codes.map_values(|c: i32| text::signed_decimal(c as int))
}

/// The exit code each word spells.
pub open spec fn codes_named(words: Seq<Seq<char>>) -> Option<Seq<i32>> {
    if forall|i: int| 0 <= i < words.len() ==> text::spells_i32(#[trigger] words[i]) is Some {
        Some(words.map_values(|w: Seq<char>| text::spells_i32(w)->Some_0))
    } else {
        None
    }
}

proof fn lemma_codes(codes: Seq<i32>)
    ensures
        codes_named(code_words(codes)) == Some(codes),
{
    let words = code_words(codes);
    assert forall|i: int| 0 <= i < words.len() implies text::spells_i32(#[trigger] words[i])
        == Some(codes[i]) by {
        text::lemma_signed_decimal_number(codes[i]);
    }
    assert(codes_named(words)->Some_0 =~= codes);
}

fn words_of_codes(codes: &Vec<i32>) -> (r: Vec<String>)
    ensures
        text::views(r@) == code_words(codes@),
{
    let mut out: Vec<String> = Vec::new();
    let mut i: usize = 0;
    while i < codes.len()
        invariant
            i <= codes@.len(),
            out@.len() == i,
            forall|j: int|
                0 <= j < i ==> #[trigger] out@[j]@ == text::signed_decimal(codes@[j] as int),
        decreases codes@.len() - i,
    {
        out.push(text::signed_decimal_of(codes[i] as i64));
        i = i + 1;
    }
    assert(text::views(out@) =~= code_words(codes@));
    out
}

fn codes_of_words(words: &Vec<String>) -> (r: Option<Vec<i32>>)
    ensures
        match r {
            Some(v) => codes_named(text::views(words@)) == Some(v@),
            None => codes_named(text::views(words@)) is None,
        },
{
    let mut out: Vec<i32> = Vec::new();
    let mut i: usize = 0;
    let ghost all = text::views(words@);
    while i < words.len()
        invariant
            all == text::views(words@),
            i <= words@.len(),
            out@.len() == i,
            forall|j: int| 0 <= j < i ==> text::spells_i32(#[trigger] all[j]) == Some(out@[j]),
        decreases words@.len() - i,
    {
        match text::parse_i32(words[i].as_str()) {
            Some(c) => {
                out.push(c);
            },
            None => {
                assert(text::spells_i32(all[i as int]) is None);
                return None;
            },
        }
        i = i + 1;
    }
    assert(codes_named(all)->Some_0 =~= out@);
    Some(out)
}

/// A condition as two texts, or none.
pub open spec fn condition_words(when: Option<(Seq<char>, Seq<char>)>) -> Seq<Seq<char>> {
    match when {
        Some((option, equals)) => seq![option, equals],
        None => Seq::<Seq<char>>::empty(),
    }
}

/// The condition a list of texts states.
pub open spec fn condition_named(words: Seq<Seq<char>>) -> Option<
    Option<(Seq<char>, Seq<char>)>,
> {
    if words.len() == 0 {
        Some(None)
    } else if words.len() == 2 {
        Some(Some((words[0], words[1])))
    } else {
        None
    }
}

fn words_of_condition(when: &Option<Predicate>) -> (r: Vec<String>)
    ensures
        text::views(r@) == condition_words(condition(*when)),
{
    let mut out: Vec<String> = Vec::new();
    match when {
        Some(p) => {
            out.push(p.option.clone());
            out.push(p.equals.clone());
        },
        None => {},
    }
    assert(text::views(out@) =~= condition_words(condition(*when)));
    out
}

fn condition_of_words(words: &Vec<String>) -> (r: Option<Option<Predicate>>)
    ensures
        match r {
            Some(when) => condition_named(text::views(words@)) == Some(condition(when)),
            None => condition_named(text::views(words@)) is None,
        },
{
    if words.len() == 0 {
        Some(None)
    } else if words.len() == 2 {
        Some(Some(Predicate { option: words[0].clone(), equals: words[1].clone() }))
    } else {
        None
    }
}

impl ActionView {
    /// The texts an action is stored as.
    pub open spec fn fields(self) -> Seq<Seq<char>> {
        seq![
            self.name,
            self.phase.name(),
            packed::packed(operation_words(self.run_on)),
            self.kind.name(),
            self.command,
            self.entry,
            self.file_name,
            self.sha256,
            text::decimal(self.size as nat),
            packed::packed(self.arguments),
            self.working_directory,
            text::decimal(self.timeout_seconds as nat),
            packed::packed(code_words(self.success_codes)),
            packed::packed(code_words(self.reboot_codes)),
            self.on_failure.name(),
            packed::packed(condition_words(self.when)),
        ]
    }

    /// The action in one text.
    pub open spec fn stored(self) -> Seq<char> {
        packed::packed(self.fields())
    }

    /// The definition a row carries.
    pub open spec fn definition(self) -> Seq<char> {
        encoding::written(self.stored())
    }
}

/// The action a list of texts states; nothing where a text does not read.
pub open spec fn action_from(f: Seq<Seq<char>>) -> Option<ActionView> {
    if f.len() != 16 {
        None
    } else {
        match (
            ActionPhase::named(f[1]),
            packed::unpacked(f[2]),
            ActionKind::named(f[3]),
            text::spells_u64(f[8]),
            packed::unpacked(f[9]),
            text::spells_u32(f[11]),
            packed::unpacked(f[12]),
            packed::unpacked(f[13]),
            ActionFailurePolicy::named(f[14]),
            packed::unpacked(f[15]),
        ) {
            (
                Some(phase),
                Some(run_on),
                Some(kind),
                Some(size),
                Some(arguments),
                Some(timeout_seconds),
                Some(success_codes),
                Some(reboot_codes),
                Some(on_failure),
                Some(when),
            ) => match (
                operations_named(run_on),
                codes_named(success_codes),
                codes_named(reboot_codes),
                condition_named(when),
            ) {
                (Some(run_on), Some(success_codes), Some(reboot_codes), Some(when)) => Some(
                    ActionView {
                        name: f[0],
                        phase,
                        run_on,
                        kind,
                        command: f[4],
                        entry: f[5],
                        file_name: f[6],
                        sha256: f[7],
                        size,
                        arguments,
                        working_directory: f[10],
                        timeout_seconds,
                        success_codes,
                        reboot_codes,
                        on_failure,
                        when,
                    },
                ),
                _ => None,
            },
            _ => None,
        }
    }
}

/// The texts an action is stored as state the action.
pub proof fn lemma_action_from(a: ActionView)
    ensures
        action_from(a.fields()) == Some(a),
{
    lemma_actionphase_named(a.phase);
    lemma_actionkind_named(a.kind);
    lemma_actionfailurepolicy_named(a.on_failure);
    lemma_operations(a.run_on);
    lemma_codes(a.success_codes);
    lemma_codes(a.reboot_codes);
    packed::lemma_unpacked(operation_words(a.run_on));
    packed::lemma_unpacked(a.arguments);
    packed::lemma_unpacked(code_words(a.success_codes));
    packed::lemma_unpacked(code_words(a.reboot_codes));
    packed::lemma_unpacked(condition_words(a.when));
    text::lemma_decimal_number(a.size as nat);
    text::lemma_decimal_number(a.timeout_seconds as nat);
    let digits = text::decimal(a.timeout_seconds as nat);
    assert(text::is_digit(digits[0]));
    assert(action_from(a.fields())->Some_0 =~= a);
}

/// The action one text states.
pub open spec fn action_of(stored: Seq<char>) -> Option<ActionView> {
    match packed::unpacked(stored) {
        Some(f) => action_from(f),
        None => None,
    }
}

/// What a definition that does not read is refused with.
pub open spec fn undecodable(what: Seq<char>, why: Seq<char>) -> ErrorView {
    ErrorView {
        code: "journal_inconsistent"@,
        message: what + " definition cannot be decoded: "@ + why,
    }
}

fn undecodable_of(what: &str, why: &str) -> (r: Error)
    ensures
        r@ == undecodable(what@, why@),
{
    let message = text::cat3(what, " definition cannot be decoded: ", why);
    Error::new("journal_inconsistent", message.as_str())
}

/// Why a row does not read, in words.
pub open spec fn why_unreadable(why: encoding::Unreadable) -> Seq<char> {
    match why {
        encoding::Unreadable::NotHex => "not hex"@,
        encoding::Unreadable::NotText => "not text"@,
    }
}

fn text_of(what: &str, row: &str) -> (r: Result<String, Error>)
    ensures
        match (r, encoding::read_back(row@)) {
            (Ok(t), Ok(s)) => t@ == s,
            (Err(e), Err(why)) => e@ == undecodable(what@, why_unreadable(why)),
            _ => false,
        },
{
    match encoding::read(row) {
        Ok(t) => Ok(t),
        Err(encoding::Unreadable::NotHex) => Err(undecodable_of(what, "not hex")),
        Err(encoding::Unreadable::NotText) => Err(undecodable_of(what, "not text")),
    }
}

/// The action the definition of a row states.
pub open spec fn action_in(row: Seq<char>) -> Result<ActionView, ErrorView> {
    match encoding::read_back(row) {
        Err(why) => Err(undecodable("action"@, why_unreadable(why))),
        Ok(stored) => match action_of(stored) {
            Some(a) => Ok(a),
            None => Err(undecodable("action"@, "a field does not read"@)),
        },
    }
}

/// A definition reads back as the action it was written from.
pub proof fn lemma_action_round_trip(a: ActionView)
    ensures
        action_in(a.definition()) == Ok::<ActionView, ErrorView>(a),
{
    encoding::lemma_read_written(a.stored());
    packed::lemma_unpacked(a.fields());
    lemma_action_from(a);
}

impl Action {
    /// The exit codes that mean success: the declared ones, or 0.
    pub open spec fn successes(self) -> Seq<i32> {
        if self.success_codes@.len() == 0 {
            seq![0i32]
        } else {
            self.success_codes@
        }
    }

    /// Whether the exit code means success.
    pub fn is_success(&self, code: i32) -> (r: bool)
        ensures
            r == self.successes().contains(code),
    {
        if self.success_codes.len() == 0 {
            assert(self.successes()[0] == 0i32);
            code == 0
        } else {
            lists::has_code(&self.success_codes, code)
        }
    }

    /// Whether the action runs on an operation.
    pub fn runs_on(&self, operation: ActionOperation) -> (r: bool)
        ensures
            r == self.run_on@.contains(operation),
    {
        runs_on(&self.run_on, operation)
    }

    /// Whether the program travels in the payload.
    pub fn is_packaged(&self) -> (r: bool)
        ensures
            r == (self.entry@.len() != 0),
    {
        !self.entry.as_str().is_empty()
    }

    /// The texts the action is stored as, in one.
    fn pack(&self) -> (r: String)
        ensures
            r@ == self@.stored(),
    {
        let run_on = words_of_operations(&self.run_on);
        let success_codes = words_of_codes(&self.success_codes);
        let reboot_codes = words_of_codes(&self.reboot_codes);
        let when = words_of_condition(&self.when);
        let mut fields: Vec<String> = Vec::new();
        fields.push(self.name.clone());
        fields.push(text::owned(self.phase.as_str()));
        fields.push(packed::pack(&run_on));
        fields.push(text::owned(self.kind.as_str()));
        fields.push(self.command.clone());
        fields.push(self.entry.clone());
        fields.push(self.file_name.clone());
        fields.push(self.sha256.clone());
        fields.push(text::decimal_of(self.size));
        fields.push(packed::pack(&self.arguments));
        fields.push(self.working_directory.clone());
        fields.push(text::decimal_of(self.timeout_seconds as u64));
        fields.push(packed::pack(&success_codes));
        fields.push(packed::pack(&reboot_codes));
        fields.push(text::owned(self.on_failure.as_str()));
        fields.push(packed::pack(&when));
        assert(text::views(fields@) =~= self@.fields());
        packed::pack(&fields)
    }

    /// The action one text states.
    fn unpack(stored: &str) -> (r: Option<Action>)
        ensures
            text::option_view(r) == action_of(stored@),
    {
        let fields = packed::unpacked_of(stored)?;
        let ghost f = text::views(fields@);
        if fields.len() != 16 {
            return None;
        }
        let phase = ActionPhase::from_word(fields[1].as_str())?;
        let run_on = packed::unpacked_of(fields[2].as_str())?;
        let kind = ActionKind::from_word(fields[3].as_str())?;
        let size = text::parse_u64(fields[8].as_str())?;
        let arguments = packed::unpacked_of(fields[9].as_str())?;
        let timeout_seconds = text::parse_u32(fields[11].as_str())?;
        let success_codes = packed::unpacked_of(fields[12].as_str())?;
        let reboot_codes = packed::unpacked_of(fields[13].as_str())?;
        let on_failure = ActionFailurePolicy::from_word(fields[14].as_str())?;
        let when = packed::unpacked_of(fields[15].as_str())?;
        let run_on = operations_of_words(&run_on)?;
        let success_codes = codes_of_words(&success_codes)?;
        let reboot_codes = codes_of_words(&reboot_codes)?;
        let when = condition_of_words(&when)?;
        let action = Action {
            name: fields[0].clone(),
            phase,
            run_on,
            kind,
            command: fields[4].clone(),
            entry: fields[5].clone(),
            file_name: fields[6].clone(),
            sha256: fields[7].clone(),
            size,
            arguments,
            working_directory: fields[10].clone(),
            timeout_seconds,
            success_codes,
            reboot_codes,
            on_failure,
            when,
        };
        Some(action)
    }
}

/// Whether a list of operations names one.
pub fn runs_on(run_on: &Vec<ActionOperation>, operation: ActionOperation) -> (r: bool)
    ensures
        r == run_on@.contains(operation),
{
    let mut i: usize = 0;
    while i < run_on.len()
        invariant
            i <= run_on@.len(),
            forall|j: int| 0 <= j < i ==> run_on@[j] != operation,
        decreases run_on@.len() - i,
    {
        if run_on[i] == operation {
            return true;
        }
        i = i + 1;
    }
    false
}

/// The definition as a journal or ownership row carries it, so that what the
/// engine runs is exactly what the package declared.
pub fn serialize(action: &Action) -> (r: String)
    ensures
        r@ == action@.definition(),
{
    let stored = action.pack();
    encoding::write(stored.as_str())
}

/// The action a row carries.
pub fn deserialize(row: &str) -> (r: Result<Action, Error>)
    ensures
        match (r, action_in(row@)) {
            (Ok(a), Ok(b)) => a@ == b,
            (Err(e), Err(b)) => e@ == b,
            _ => false,
        },
{
    let stored = text_of("action", row)?;
    match Action::unpack(stored.as_str()) {
        Some(a) => Ok(a),
        None => Err(undecodable_of("action", "a field does not read")),
    }
}

impl QuiescenceView {
    /// The texts an entry is stored as.
    pub open spec fn fields(self) -> Seq<Seq<char>> {
        seq![
            self.name,
            packed::packed(operation_words(self.run_on)),
            self.stop.stored(),
            packed::packed(
                match self.resume {
                    Some(a) => seq![a.stored()],
                    None => Seq::<Seq<char>>::empty(),
                },
            ),
            packed::packed(code_words(self.not_running_codes)),
            packed::packed(condition_words(self.when)),
        ]
    }

    /// The definition a row carries.
    pub open spec fn definition(self) -> Seq<char> {
        encoding::written(packed::packed(self.fields()))
    }
}

/// The resume action a list of texts states: none, or one.
pub open spec fn resume_from(f: Seq<Seq<char>>) -> Option<Option<ActionView>> {
    if f.len() == 0 {
        Some(None)
    } else if f.len() == 1 {
        match action_of(f[0]) {
            Some(a) => Some(Some(a)),
            None => None,
        }
    } else {
        None
    }
}

/// The entry a list of texts states; nothing where a text does not read.
pub open spec fn quiescence_from(f: Seq<Seq<char>>) -> Option<QuiescenceView> {
    if f.len() != 6 {
        None
    } else {
        match (
            packed::unpacked(f[1]),
            action_of(f[2]),
            packed::unpacked(f[3]),
            packed::unpacked(f[4]),
            packed::unpacked(f[5]),
        ) {
            (Some(run_on), Some(stop), Some(resume), Some(codes), Some(when)) => match (
                operations_named(run_on),
                resume_from(resume),
                codes_named(codes),
                condition_named(when),
            ) {
                (Some(run_on), Some(resume), Some(not_running_codes), Some(when)) => Some(
                    QuiescenceView { name: f[0], run_on, stop, resume, not_running_codes, when },
                ),
                _ => None,
            },
            _ => None,
        }
    }
}

/// The entry the definition of a row states.
pub open spec fn quiescence_in(row: Seq<char>) -> Result<QuiescenceView, ErrorView> {
    match encoding::read_back(row) {
        Err(why) => Err(undecodable("quiescence"@, why_unreadable(why))),
        Ok(stored) => match packed::unpacked(stored) {
            None => Err(undecodable("quiescence"@, "a field does not read"@)),
            Some(f) => match quiescence_from(f) {
                Some(q) => Ok(q),
                None => Err(undecodable("quiescence"@, "a field does not read"@)),
            },
        },
    }
}

/// A definition reads back as the entry it was written from.
pub proof fn lemma_quiescence_round_trip(q: QuiescenceView)
    ensures
        quiescence_in(q.definition()) == Ok::<QuiescenceView, ErrorView>(q),
{
    let f = q.fields();
    encoding::lemma_read_written(packed::packed(f));
    packed::lemma_unpacked(f);
    packed::lemma_unpacked(operation_words(q.run_on));
    packed::lemma_unpacked(q.stop.fields());
    lemma_action_from(q.stop);
    match q.resume {
        Some(a) => {
            packed::lemma_unpacked(seq![a.stored()]);
            packed::lemma_unpacked(a.fields());
            lemma_action_from(a);
        },
        None => {
            packed::lemma_unpacked(Seq::<Seq<char>>::empty());
        },
    }
    packed::lemma_unpacked(code_words(q.not_running_codes));
    packed::lemma_unpacked(condition_words(q.when));
    lemma_operations(q.run_on);
    lemma_codes(q.not_running_codes);
    assert(quiescence_from(f)->Some_0 =~= q);
}

fn unpack_quiescence(fields: &Vec<String>) -> (r: Option<Quiescence>)
    ensures
        text::option_view(r) == quiescence_from(text::views(fields@)),
{
    let ghost f = text::views(fields@);
    if fields.len() != 6 {
        return None;
    }
    let run_on = packed::unpacked_of(fields[1].as_str())?;
    let stop = Action::unpack(fields[2].as_str())?;
    let resume = packed::unpacked_of(fields[3].as_str())?;
    let codes = packed::unpacked_of(fields[4].as_str())?;
    let when = packed::unpacked_of(fields[5].as_str())?;
    let run_on = operations_of_words(&run_on)?;
    let resume = if resume.len() == 0 {
        None
    } else if resume.len() == 1 {
        Some(Action::unpack(resume[0].as_str())?)
    } else {
        return None;
    };
    let not_running_codes = codes_of_words(&codes)?;
    let when = condition_of_words(&when)?;
    Some(Quiescence { name: fields[0].clone(), run_on, stop, resume, not_running_codes, when })
}

/// A quiescence entry as a journal or ownership row carries it.
pub fn serialize_quiescence(entry: &Quiescence) -> (r: String)
    ensures
        r@ == entry@.definition(),
{
    let run_on = words_of_operations(&entry.run_on);
    let mut resume: Vec<String> = Vec::new();
    match &entry.resume {
        Some(a) => {
            resume.push(a.pack());
            assert(text::views(resume@) =~= seq![a@.stored()]);
        },
        None => {
            assert(text::views(resume@) =~= Seq::<Seq<char>>::empty());
        },
    }
    let codes = words_of_codes(&entry.not_running_codes);
    let when = words_of_condition(&entry.when);
    let mut fields: Vec<String> = Vec::new();
    fields.push(entry.name.clone());
    fields.push(packed::pack(&run_on));
    fields.push(entry.stop.pack());
    fields.push(packed::pack(&resume));
    fields.push(packed::pack(&codes));
    fields.push(packed::pack(&when));
    assert(text::views(fields@) =~= entry@.fields());
    let stored = packed::pack(&fields);
    encoding::write(stored.as_str())
}

/// The quiescence entry a row carries.
pub fn deserialize_quiescence(row: &str) -> (r: Result<Quiescence, Error>)
    ensures
        match (r, quiescence_in(row@)) {
            (Ok(a), Ok(b)) => a@ == b,
            (Err(e), Err(b)) => e@ == b,
            _ => false,
        },
{
    let stored = text_of("quiescence", row)?;
    match packed::unpacked_of(stored.as_str()) {
        None => Err(undecodable_of("quiescence", "a field does not read")),
        Some(fields) => match unpack_quiescence(&fields) {
            Some(q) => Ok(q),
            None => Err(undecodable_of("quiescence", "a field does not read")),
        },
    }
}

fn copy_condition(when: &Option<Predicate>) -> (r: Option<Predicate>)
    ensures
        condition(r) == condition(*when),
{
    match when {
        Some(p) => Some(Predicate { option: p.option.clone(), equals: p.equals.clone() }),
        None => None,
    }
}

fn copy_operations(v: &Vec<ActionOperation>) -> (r: Vec<ActionOperation>)
    ensures
        r@ == v@,
{
    let mut out: Vec<ActionOperation> = Vec::new();
    let mut i: usize = 0;
    while i < v.len()
        invariant
            i <= v@.len(),
            out@ == v@.take(i as int),
        decreases v@.len() - i,
    {
        out.push(v[i]);
        assert(out@ =~= v@.take(i + 1));
        i = i + 1;
    }
    out
}

impl Clone for Action {
    fn clone(&self) -> (r: Action)
        ensures
            r@ == self@,
    {
        Action {
            name: self.name.clone(),
            phase: self.phase,
            run_on: copy_operations(&self.run_on),
            kind: self.kind,
            command: self.command.clone(),
            entry: self.entry.clone(),
            file_name: self.file_name.clone(),
            sha256: self.sha256.clone(),
            size: self.size,
            arguments: text::copy_list(&self.arguments),
            working_directory: self.working_directory.clone(),
            timeout_seconds: self.timeout_seconds,
            success_codes: lists::copy_codes(&self.success_codes),
            reboot_codes: lists::copy_codes(&self.reboot_codes),
            on_failure: self.on_failure,
            when: copy_condition(&self.when),
        }
    }
}

impl Clone for Quiescence {
    fn clone(&self) -> (r: Quiescence)
        ensures
            r@ == self@,
    {
        Quiescence {
            name: self.name.clone(),
            run_on: copy_operations(&self.run_on),
            stop: self.stop.clone(),
            resume: match &self.resume {
                Some(a) => Some(a.clone()),
                None => None,
            },
            not_running_codes: lists::copy_codes(&self.not_running_codes),
            when: copy_condition(&self.when),
        }
    }
}

impl Default for Action {
    fn default() -> (r: Action)
        ensures
            r@ == (ActionView {
                name: ""@,
                phase: ActionPhase::PreInstall,
                run_on: Seq::empty(),
                kind: ActionKind::Exe,
                command: ""@,
                entry: ""@,
                file_name: ""@,
                sha256: ""@,
                size: 0,
                arguments: Seq::empty(),
                working_directory: ""@,
                timeout_seconds: 0,
                success_codes: Seq::empty(),
                reboot_codes: Seq::empty(),
                on_failure: ActionFailurePolicy::Fail,
                when: None,
            }),
    {
        let r = Action {
            name: text::owned(""),
            phase: ActionPhase::PreInstall,
            run_on: Vec::new(),
            kind: ActionKind::Exe,
            command: text::owned(""),
            entry: text::owned(""),
            file_name: text::owned(""),
            sha256: text::owned(""),
            size: 0,
            arguments: Vec::new(),
            working_directory: text::owned(""),
            timeout_seconds: 0,
            success_codes: Vec::new(),
            reboot_codes: Vec::new(),
            on_failure: ActionFailurePolicy::Fail,
            when: None,
        };
        assert(r@.arguments =~= Seq::empty());
        r
    }
}

}
