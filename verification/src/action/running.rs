//! What holds of the actions of a run: which run and when, what their texts
//! come to, and what their ends mean.

use vstd::prelude::*;

use crate::action::definition::{Action, ActionKind, ActionOperation, ActionPhase, ActionView};
use crate::action::launch;
use crate::action::launch::{Context, Status};
use crate::action::plan;
use crate::lists;
use crate::machine::Machine;
use crate::metadata::OptionView;
use crate::plan::target;
use crate::state::installation::OwnedAction;
use crate::state::journal::TxnKind;
use crate::text;

verus! {

/// A text without `%` is taken as it is.
pub proof fn lemma_a_plain_text_is_itself(
    s: Seq<char>,
    root: Seq<char>,
    version: Seq<char>,
    machine: Machine,
)
    requires
        !s.contains('%'),
    ensures
        launch::expansion(s, root, version, machine) == s,
{
    text::lemma_find(s, '%');
    if text::find(s, '%') is Some {
        assert(s[text::find(s, '%')->Some_0] == '%');
    }
}

/// A known name between two `%` gives its value, and the text goes on behind
/// it.
pub proof fn lemma_a_known_name_is_expanded(
    before: Seq<char>,
    name: Seq<char>,
    after: Seq<char>,
    root: Seq<char>,
    version: Seq<char>,
    machine: Machine,
)
    requires
        !before.contains('%'),
        launch::is_name(name),
        launch::value_of(name, root, version, machine) is Some,
    ensures
        launch::expansion(
            before + seq!['%'] + name + seq!['%'] + after,
            root,
            version,
            machine,
        ) == before + launch::value_of(name, root, version, machine)->Some_0 + launch::expansion(
            after,
            root,
            version,
            machine,
        ),
{
    let s = before + seq!['%'] + name + seq!['%'] + after;
    let n = before.len() as int;
    assert forall|j: int| 0 <= j < n implies #[trigger] s[j] != '%' by {
        assert(s[j] == before[j]);
        assert(before.contains(before[j]));
    }
    text::lemma_find_at(s, '%', n);
    let rest = s.skip(n + 1);
    assert(rest =~= name + seq!['%'] + after);
    assert forall|j: int| 0 <= j < name.len() implies #[trigger] rest[j] != '%' by {
        assert(rest[j] == name[j]);
        assert(launch::is_name_char(name[j]));
    }
    text::lemma_find_at(rest, '%', name.len() as int);
    assert(rest.take(name.len() as int) =~= name);
    assert(rest.skip(name.len() as int + 1) =~= after);
    assert(s.take(n) =~= before);
}

/// A `%` that no known name follows stays, and the text goes on behind it.
pub proof fn lemma_another_percent_stays(
    before: Seq<char>,
    after: Seq<char>,
    root: Seq<char>,
    version: Seq<char>,
    machine: Machine,
)
    requires
        !before.contains('%'),
        forall|k: int|
            0 <= k < after.len() && #[trigger] after[k] == '%' && launch::is_name(after.take(k))
                ==> launch::value_of(after.take(k), root, version, machine) is None,
    ensures
        launch::expansion(before + seq!['%'] + after, root, version, machine) == before + seq!['%']
            + launch::expansion(after, root, version, machine),
{
    let s = before + seq!['%'] + after;
    let n = before.len() as int;
    assert forall|j: int| 0 <= j < n implies #[trigger] s[j] != '%' by {
        assert(s[j] == before[j]);
        assert(before.contains(before[j]));
    }
    text::lemma_find_at(s, '%', n);
    assert(s.skip(n + 1) =~= after);
    assert(s.take(n + 1) =~= before + seq!['%']);
    text::lemma_find(after, '%');
    if text::find(after, '%') is Some {
        let k = text::find(after, '%')->Some_0;
        assert(after[k] == '%');
    }
}

/// The names a text may use: the install root and the version, in any case,
/// and the machine's known folders.
pub proof fn lemma_what_a_name_stands_for(
    name: Seq<char>,
    root: Seq<char>,
    version: Seq<char>,
    machine: Machine,
)
    ensures
        text::lower(name) == "installroot"@ ==> launch::value_of(name, root, version, machine)
            == Some(root),
        text::lower(name) == "version"@ ==> launch::value_of(name, root, version, machine) == Some(
            version,
        ),
        text::lower(name) != "installroot"@ && text::lower(name) != "version"@ ==> launch::value_of(
            name,
            root,
            version,
            machine,
        ) == machine.folder(name),
{
    reveal_strlit("installroot");
    reveal_strlit("version");
    assert("installroot"@.len() == 11);
    assert("version"@.len() == 7);
}

/// How an action is started: a program by itself, a script by its shell, in the
/// declared directory or beside the program, for as long as declared, and told
/// what the run is.
pub proof fn lemma_how_an_action_is_started(
    action: Action,
    program: Seq<char>,
    context: Context,
    machine: Machine,
)
    ensures
        ({
            let l = launch::launched(action, program, context, machine);
            let e = l.environment;
            &&& action.kind == ActionKind::Exe ==> l.program == program && l.raw_tail is None
                && l.arguments.len() == action.arguments@.len()
            &&& action.kind == ActionKind::Cmd ==> l.program == launch::system_file(
                machine,
                "cmd.exe"@,
            ) && l.raw_tail is Some
            &&& action.kind == ActionKind::Powershell ==> l.program == launch::system_file(
                machine,
                "WindowsPowerShell\\v1.0\\powershell.exe"@,
            ) && l.raw_tail is None && l.arguments.len() == action.arguments@.len() + 6
                && l.arguments[0] == "-NoProfile"@ && l.arguments[1] == "-NonInteractive"@
                && l.arguments[2] == "-ExecutionPolicy"@ && l.arguments[3] == "Bypass"@
                && l.arguments[4] == "-File"@ && l.arguments[5] == program
            &&& action.working_directory@.len() == 0 ==> l.working_directory
                == target::parent_folder(program)
            &&& action.working_directory@.len() > 0 ==> l.working_directory == Some(
                launch::expansion(
                    action.working_directory@,
                    context.install_root@,
                    context.version@,
                    machine,
                ),
            )
            &&& l.timeout_seconds == action.timeout_seconds
            &&& e.len() == 8
            &&& e.contains(("TIGERSETUP_INSTALL_ROOT"@, context.install_root@))
            &&& e.contains(("TIGERSETUP_VERSION"@, context.version@))
            &&& e.contains(("TIGERSETUP_PRODUCT_ID"@, context.product_id@))
            &&& e.contains(("TIGERSETUP_SCOPE"@, context.scope.name()))
            &&& e.contains(("TIGERSETUP_OPERATION"@, context.operation.name()))
            &&& e.contains(("TIGERSETUP_PHASE"@, action.phase.name()))
            &&& e.contains(("TIGERSETUP_ACTION"@, action.name@))
            &&& context.quiet ==> e.contains(("TIGERSETUP_QUIET"@, "1"@))
            &&& !context.quiet ==> e.contains(("TIGERSETUP_QUIET"@, "0"@))
        }),
{
    let e = launch::environment(action@, context);
    assert(e.contains(e[0]));
    assert(e.contains(e[1]));
    assert(e.contains(e[2]));
    assert(e.contains(e[3]));
    assert(e.contains(e[4]));
    assert(e.contains(e[5]));
    assert(e.contains(e[6]));
    assert(e.contains(e[7]));
}

/// What an end means: a declared code, or nought where none is declared, is
/// success, and so is a code that asks for a restart; any other code is a
/// failure, and no code at all a timeout.
pub proof fn lemma_what_an_exit_code_means(action: Action, code: i32)
    ensures
        launch::verdict_on(action, None) == Status::TimedOut,
        ({
            let good = {
                ||| exists|i: int|
                    0 <= i < action.success_codes@.len() && #[trigger] action.success_codes@[i]
                        == code
                ||| action.success_codes@.len() == 0 && code == 0
                ||| exists|i: int|
                    0 <= i < action.reboot_codes@.len() && #[trigger] action.reboot_codes@[i]
                        == code
            };
            launch::verdict_on(action, Some(code)) == if good {
                Status::Completed
            } else {
                Status::Failed
            }
        }),
{
    if action.success_codes@.len() == 0 {
        assert(action.successes() == seq![0i32]);
        if code == 0 {
            assert(action.successes()[0] == code);
        }
    }
}

/// The kept end of a stream is decided: no longer end of it fits.
pub proof fn lemma_the_kept_end_is_the_longest(a: Seq<char>, b: Seq<char>, stream: Seq<char>)
    requires
        launch::is_tail(a, stream),
        launch::is_tail(b, stream),
    ensures
        a == b,
{
    let i = choose|k: int|
        0 <= k <= stream.len() && a == #[trigger] stream.skip(k) && launch::size(a)
            <= launch::OUTPUT_TAIL_BYTES && (k > 0 ==> launch::size(stream.skip(k - 1))
            > launch::OUTPUT_TAIL_BYTES);
    let j = choose|k: int|
        0 <= k <= stream.len() && b == #[trigger] stream.skip(k) && launch::size(b)
            <= launch::OUTPUT_TAIL_BYTES && (k > 0 ==> launch::size(stream.skip(k - 1))
            > launch::OUTPUT_TAIL_BYTES);
    if i < j {
        lemma_a_longer_end_is_larger(stream, i, j - 1);
    } else if j < i {
        lemma_a_longer_end_is_larger(stream, j, i - 1);
    }
}

proof fn lemma_a_longer_end_is_larger(stream: Seq<char>, i: int, j: int)
    requires
        0 <= i <= j <= stream.len(),
    ensures
        launch::size(stream.skip(i)) >= launch::size(stream.skip(j)),
    decreases j - i,
{
    if i < j {
        lemma_a_longer_end_is_larger(stream, i + 1, j);
        assert(stream.skip(i).drop_first() =~= stream.skip(i + 1));
        reveal_with_fuel(vstd::utf8::encode_utf8, 2);
    }
}

/// Whether the condition of an action is met.
pub open spec fn met(
    condition: Option<(Seq<char>, Seq<char>)>,
    options: Map<Seq<char>, OptionView>,
) -> bool {
    condition matches Some((option, equals)) ==> options.dom().contains(text::lower(option))
        && options[text::lower(option)].text() == equals
}

/// When an action runs: in a run it is declared for, while its condition is
/// met, before the resources where its phase says so and after them otherwise.
/// Installing runs only the actions of installing and stores the others.
pub proof fn lemma_when_an_action_runs(
    actions: Seq<ActionView>,
    operation: ActionOperation,
    options: Map<Seq<char>, OptionView>,
    installing: bool,
    i: int,
)
    requires
        0 <= i < actions.len(),
    ensures
        ({
            let p = plan::arranged(actions, Seq::empty(), operation, options, installing);
            let a = actions[i];
            let own = a.phase == ActionPhase::PreInstall || a.phase == ActionPhase::PostInstall;
            let early = a.phase == ActionPhase::PreInstall || a.phase == ActionPhase::PreUninstall;
            let due = (installing ==> own) && a.run_on.contains(operation) && met(a.when, options);
            &&& p.before.contains(a) <==> due && early
            &&& p.after.contains(a) <==> due && !early
            &&& p.store.contains(a) <==> installing && !own
            &&& (installing ==> own) && !a.run_on.contains(operation) ==> p.skipped.contains(
                (a.name, "operation"@),
            )
            &&& (installing ==> own) && a.run_on.contains(operation) && !met(a.when, options)
                ==> p.skipped.contains((a.name, "option"@))
        }),
{
    let a = actions[i];
    let before = plan::goes(plan::Place::Before, operation, options, installing);
    let after = plan::goes(plan::Place::After, operation, options, installing);
    let kept = plan::goes(plan::Place::Kept, operation, options, installing);
    let over = plan::passed_over(operation, options, installing);
    lemma_filter_decides(actions, before, i);
    lemma_filter_decides(actions, after, i);
    lemma_filter_decides(actions, kept, i);
    if over(a) {
        lists::lemma_filter_holds(actions, over, i);
        let f = actions.filter(over);
        let k = choose|k: int| 0 <= k < f.len() && f[k] == a;
        let skip = plan::skip(operation, options, installing);
        assert(f.map_values(skip)[k] == skip(a));
    }
}

proof fn lemma_filter_decides(s: Seq<ActionView>, p: spec_fn(ActionView) -> bool, i: int)
    requires
        0 <= i < s.len(),
    ensures
        s.filter(p).contains(s[i]) <==> p(s[i]),
{
    if p(s[i]) {
        lists::lemma_filter_holds(s, p, i);
    }
    if s.filter(p).contains(s[i]) {
        let k = choose|k: int| 0 <= k < s.filter(p).len() && s.filter(p)[k] == s[i];
        lists::lemma_filter_from(s, p, k);
    }
}

/// An uninstall runs what was recorded for it: the actions declared for
/// uninstalling whose condition is met, and stores nothing.
pub proof fn lemma_what_an_uninstall_runs(
    records: Seq<OwnedAction>,
    options: Map<Seq<char>, OptionView>,
    i: int,
)
    ensures
        plan::uninstalling(records, options) is Ok <==> plan::recorded(records) is Ok,
        plan::recorded(records) matches Ok(actions) && 0 <= i < actions.len() ==> {
            let p = plan::uninstalling(records, options)->Ok_0;
            let a = plan::recorded(records)->Ok_0[i];
            let early = a.phase == ActionPhase::PreInstall || a.phase == ActionPhase::PreUninstall;
            let due = a.run_on.contains(ActionOperation::Uninstall) && met(a.when, options);
            &&& p.before.contains(a) <==> due && early
            &&& p.after.contains(a) <==> due && !early
            &&& !p.store.contains(a)
            &&& p.store_quiescence.len() == 0
        },
{
    if plan::recorded(records) is Ok {
        let actions = plan::recorded(records)->Ok_0;
        if 0 <= i < actions.len() {
            lemma_when_an_action_runs(actions, ActionOperation::Uninstall, options, false, i);
        }
    }
}

/// Each kind of transaction runs the actions of its own operation.
pub proof fn lemma_whose_actions_run(a: TxnKind, b: TxnKind)
    ensures
        plan::operation_for(a) == plan::operation_for(b) ==> a == b,
        plan::operation_for(a).name() == a.name(),
{
}

}
