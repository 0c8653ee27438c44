//! What a program reads back from the command line it is started with.

use vstd::prelude::*;

use crate::action::definition::{Action, ActionKind};
use crate::action::launch;
use crate::action::launch::{backslashes, escaped, is_plain, line, quoted, trailing, Context};
use crate::machine::Machine;

verus! {

/// How many backslashes a text starts with.
pub open spec fn leading(s: Seq<char>) -> nat
    decreases s.len(),
{
    if s.len() == 0 || s[0] != '\\' {
        0
    } else {
        1 + leading(s.drop_first())
    }
}

/// The arguments a program reads from the rest of a command line, with `word`
/// read of the one it is in. Twice as many backslashes in front of a quote are
/// half as many and a quote that opens or closes, one more is half as many and
/// a quote, and backslashes in front of anything else are themselves; blanks
/// outside quotes end an argument.
pub open spec fn read(s: Seq<char>, inside: bool, begun: bool, word: Seq<char>) -> Seq<Seq<char>>
    decreases s.len(),
{
    let n = leading(s);
    if s.len() == 0 {
        if begun {
            seq![word]
        } else {
            Seq::empty()
        }
    } else if 0 < n <= s.len() {
        let after = s.skip(n as int);
        if after.len() > 0 && after[0] == '"' {
            if n % 2 == 1 {
                read(after.drop_first(), inside, true, word + backslashes_of(n / 2) + seq!['"'])
            } else {
                read(after, inside, true, word + backslashes_of(n / 2))
            }
        } else {
            read(after, inside, true, word + backslashes_of(n))
        }
    } else if s[0] == '"' {
        read(s.drop_first(), !inside, true, word)
    } else if !inside && (s[0] == ' ' || s[0] == '\t') {
        if begun {
            seq![word] + read(s.drop_first(), false, false, Seq::empty())
        } else {
            read(s.drop_first(), false, false, Seq::empty())
        }
    } else {
        read(s.drop_first(), inside, true, word.push(s[0]))
    }
}

/// A run of backslashes.
pub open spec fn backslashes_of(n: nat) -> Seq<char> {
    Seq::new(n, |i: int| '\\')
}

/// The program and the arguments a command line is read as.
pub open spec fn arguments_of(whole: Seq<char>) -> Seq<Seq<char>> {
    read(whole, false, false, Seq::empty())
}

proof fn lemma_leading(n: nat, t: Seq<char>)
    requires
        t.len() > 0,
        t[0] != '\\',
    ensures
        leading(backslashes_of(n) + t) == n,
        (backslashes_of(n) + t).skip(n as int) == t,
    decreases n,
{
    let s = backslashes_of(n) + t;
    assert(s.skip(n as int) =~= t);
    if n > 0 {
        assert(s.drop_first() =~= backslashes_of((n - 1) as nat) + t);
        lemma_leading((n - 1) as nat, t);
        assert(s[0] == '\\');
    } else {
        assert(s =~= t);
    }
}

/// Backslashes and what stands behind them.
proof fn lemma_read_run(n: nat, t: Seq<char>, inside: bool, word: Seq<char>)
    requires
        t.len() > 0,
        t[0] != '\\',
    ensures
        t[0] == '"' && n % 2 == 1 ==> read(backslashes_of(n) + t, inside, true, word) == read(
            t.drop_first(),
            inside,
            true,
            word + backslashes_of(n / 2) + seq!['"'],
        ),
        t[0] == '"' && n % 2 == 0 ==> read(backslashes_of(n) + t, inside, true, word) == read(
            t.drop_first(),
            !inside,
            true,
            word + backslashes_of(n / 2),
        ),
        t[0] != '"' && inside ==> read(backslashes_of(n) + t, inside, true, word) == read(
            t.drop_first(),
            inside,
            true,
            word + backslashes_of(n) + seq![t[0]],
        ),
{
    let s = backslashes_of(n) + t;
    lemma_leading(n, t);
    lemma_leading(0, t);
    assert(backslashes_of(0) + t =~= t);
    let half = word + backslashes_of(n / 2);
    let full = word + backslashes_of(n);
    assert(full.push(t[0]) =~= full + seq![t[0]]);
    if n == 0 {
        assert(s =~= t);
        assert(half =~= word);
        assert(full =~= word);
    }
    if t[0] == '"' {
        assert(read(t, inside, true, half) == read(t.drop_first(), !inside, true, half));
    } else if inside {
        assert(read(t, inside, true, full) == read(t.drop_first(), inside, true, full.push(t[0])));
    }
}

/// What is escaped reads as what it was, up to the quote that closes it.
proof fn lemma_escaped_reads(s: Seq<char>, pending: nat, rest: Seq<char>, word: Seq<char>)
    ensures
        read(escaped(s, pending) + seq!['"'] + rest, true, true, word) == read(
            rest,
            false,
            true,
            word + backslashes_of(pending) + s,
        ),
    decreases s.len(),
{
    let quote = seq!['"'];
    assert(backslashes(2 * pending) =~= backslashes_of(2 * pending));
    assert(backslashes(2 * pending + 1) =~= backslashes_of(2 * pending + 1));
    assert(backslashes(pending) =~= backslashes_of(pending));
    let whole = escaped(s, pending) + quote + rest;
    if s.len() == 0 {
        let t = quote + rest;
        assert(whole =~= backslashes_of(2 * pending) + t);
        lemma_read_run(2 * pending, t, true, word);
        assert((2 * pending) / 2 == pending);
        assert(t.drop_first() =~= rest);
        assert(word + backslashes_of(pending) + s =~= word + backslashes_of(pending));
    } else if s[0] == '\\' {
        lemma_escaped_reads(s.drop_first(), pending + 1, rest, word);
        assert(word + backslashes_of(pending + 1) + s.drop_first() =~= word + backslashes_of(
            pending,
        ) + s);
    } else {
        let more = escaped(s.drop_first(), 0) + quote + rest;
        let t = seq![s[0]] + more;
        let n = if s[0] == '"' {
            2 * pending + 1
        } else {
            pending
        };
        assert(whole =~= backslashes_of(n) + t);
        lemma_read_run(n, t, true, word);
        assert(t.drop_first() =~= more);
        assert((2 * pending + 1) / 2 == pending);
        let next = word + backslashes_of(pending) + seq![s[0]];
        lemma_escaped_reads(s.drop_first(), 0, rest, next);
        assert(next + backslashes_of(0) + s.drop_first() =~= word + backslashes_of(pending) + s);
    }
}

/// An argument without blanks and quotes reads as it stands.
proof fn lemma_plain_reads(s: Seq<char>, rest: Seq<char>, begun: bool, word: Seq<char>)
    requires
        forall|i: int| 0 <= i < s.len() ==> #[trigger] s[i] != ' ' && s[i] != '\t' && s[i] != '"',
        rest.len() == 0 || rest[0] == ' ',
    ensures
        read(s + rest, false, begun, word) == read(rest, false, begun || s.len() > 0, word + s),
    decreases s.len(),
{
    let whole = s + rest;
    if s.len() == 0 {
        assert(whole =~= rest);
        assert(word + s =~= word);
    } else {
        let n = leading(s);
        lemma_leading_within(s, rest);
        if n > 0 {
            let after = s.skip(n as int);
            assert(whole.skip(n as int) =~= after + rest);
            assert(word + backslashes_of(n) + after =~= word + s);
            lemma_plain_reads(after, rest, true, word + backslashes_of(n));
            if after.len() > 0 {
                assert(after[0] == s[n as int]);
            }
        } else {
            assert(whole.drop_first() =~= s.drop_first() + rest);
            lemma_plain_reads(s.drop_first(), rest, true, word.push(s[0]));
            assert(word.push(s[0]) + s.drop_first() =~= word + s);
        }
    }
}

proof fn lemma_leading_within(s: Seq<char>, rest: Seq<char>)
    requires
        rest.len() == 0 || rest[0] != '\\',
    ensures
        leading(s + rest) == leading(s),
        leading(s) <= s.len(),
        s.take(leading(s) as int) == backslashes_of(leading(s)),
    decreases s.len(),
{
    if s.len() > 0 && s[0] == '\\' {
        assert((s + rest).drop_first() =~= s.drop_first() + rest);
        lemma_leading_within(s.drop_first(), rest);
        let n = leading(s.drop_first());
        assert forall|i: int| 0 <= i < n + 1 implies s[i] == '\\' by {
            if i > 0 {
                assert(s.drop_first().take(n as int)[i - 1] == '\\');
            }
        }
        assert(s.take((n + 1) as int) =~= backslashes_of(n + 1));
    } else {
        if s.len() == 0 {
            assert(s + rest =~= rest);
        }
        assert(s.take(0) =~= backslashes_of(0));
    }
}

/// An argument on a command line is read as the argument it was made of: what
/// it says survives its quoting, whatever its blanks, quotes and backslashes.
pub proof fn lemma_a_quoted_argument_reads_back(argument: Seq<char>)
    ensures
        arguments_of(quoted(argument)) == seq![argument],
{
    let none = Seq::<char>::empty();
    lemma_quoted_reads(argument, none);
    assert(quoted(argument) + none =~= quoted(argument));
}

proof fn lemma_quoted_reads(argument: Seq<char>, rest: Seq<char>)
    requires
        rest.len() == 0 || rest[0] == ' ',
    ensures
        read(quoted(argument) + rest, false, false, Seq::empty()) == read(
            rest,
            false,
            true,
            argument,
        ),
{
    let none = Seq::<char>::empty();
    if is_plain(argument) {
        lemma_plain_reads(argument, rest, false, none);
        assert(none + argument =~= argument);
    } else {
        let body = escaped(argument, 0) + seq!['"'] + rest;
        assert(quoted(argument) + rest =~= seq!['"'] + body);
        assert((seq!['"'] + body).drop_first() =~= body);
        lemma_escaped_reads(argument, 0, rest, none);
        assert(none + backslashes_of(0) + argument =~= argument);
    }
}

proof fn lemma_trailing_front(arguments: Seq<Seq<char>>)
    requires
        arguments.len() > 0,
    ensures
        trailing(arguments) == seq![' '] + quoted(arguments[0]) + trailing(arguments.drop_first()),
    decreases arguments.len(),
{
    if arguments.len() == 1 {
        assert(arguments.drop_last() =~= arguments.drop_first());
        assert(trailing(arguments) =~= seq![' '] + quoted(arguments[0]) + trailing(
            arguments.drop_first(),
        ));
    } else {
        lemma_trailing_front(arguments.drop_last());
        assert(arguments.drop_last().drop_first() =~= arguments.drop_first().drop_last());
        assert(trailing(arguments) =~= seq![' '] + quoted(arguments[0]) + trailing(
            arguments.drop_first(),
        ));
    }
}

proof fn lemma_trailing_reads(arguments: Seq<Seq<char>>, word: Seq<char>)
    ensures
        read(trailing(arguments), false, true, word) == seq![word] + arguments,
    decreases arguments.len(),
{
    if arguments.len() == 0 {
        assert(seq![word] + arguments =~= seq![word]);
    } else {
        let more = arguments.drop_first();
        lemma_trailing_front(arguments);
        let whole = trailing(arguments);
        let rest = quoted(arguments[0]) + trailing(more);
        assert(whole =~= seq![' '] + rest);
        assert(whole.drop_first() =~= rest);
        if more.len() > 0 {
            lemma_trailing_front(more);
        }
        lemma_quoted_reads(arguments[0], trailing(more));
        lemma_trailing_reads(more, arguments[0]);
        assert(seq![word] + (seq![arguments[0]] + more) =~= seq![word] + arguments);
    }
}

/// A program name in quotes.
proof fn lemma_named_reads(name: Seq<char>, rest: Seq<char>, word: Seq<char>)
    requires
        !name.contains('"'),
        name.len() == 0 || name.last() != '\\',
    ensures
        read(name + seq!['"'] + rest, true, true, word) == read(rest, false, true, word + name),
    decreases name.len(),
{
    let tail = seq!['"'] + rest;
    let whole = name + seq!['"'] + rest;
    assert(whole =~= name + tail);
    if name.len() == 0 {
        assert(whole =~= tail);
        assert(tail.drop_first() =~= rest);
        assert(word + name =~= word);
    } else {
        let n = leading(name);
        lemma_leading_within(name, tail);
        assert forall|i: int| 0 <= i < name.len() implies name[i] != '"' by {
            assert(name.contains(name[i]));
        }
        if n > 0 {
            if n == name.len() {
                assert(name.take(n as int)[n - 1] == '\\');
                assert(name.take(n as int) =~= name);
            }
            let after = name.skip(n as int);
            assert(whole.skip(n as int) =~= after + seq!['"'] + rest);
            assert(after[0] == name[n as int]);
            assert(!after.contains('"')) by {
                if after.contains('"') {
                    let i = choose|i: int| 0 <= i < after.len() && after[i] == '"';
                    assert(name[i + n] == '"');
                }
            }
            lemma_named_reads(after, rest, word + backslashes_of(n));
            assert(word + backslashes_of(n) + after =~= word + name);
        } else {
            let after = name.drop_first();
            assert(whole.drop_first() =~= after + seq!['"'] + rest);
            assert(!after.contains('"')) by {
                if after.contains('"') {
                    let i = choose|i: int| 0 <= i < after.len() && after[i] == '"';
                    assert(name[i + 1] == '"');
                }
            }
            lemma_named_reads(after, rest, word.push(name[0]));
            assert(word.push(name[0]) + after =~= word + name);
        }
    }
}

/// A command line is read as the program and exactly the arguments it was made
/// of, in their order.
pub proof fn lemma_a_command_line_reads_back(program: Seq<char>, arguments: Seq<Seq<char>>)
    requires
        !program.contains('"'),
        program.len() == 0 || program.last() != '\\',
    ensures
        arguments_of(line(program, arguments)) == seq![program] + arguments,
{
    let none = Seq::<char>::empty();
    let rest = trailing(arguments);
    let whole = line(program, arguments);
    let body = program + seq!['"'] + rest;
    assert(whole =~= seq!['"'] + body);
    assert(whole.drop_first() =~= body);
    lemma_named_reads(program, rest, none);
    assert(none + program =~= program);
    lemma_trailing_reads(arguments, program);
}

/// An action's program gets exactly the action's arguments, each expanded, in
/// their order, whatever starts it: an executable gets them as they are,
/// PowerShell behind the script it runs, and `cmd` in a line that reads as the
/// script and the arguments once its outer quotes are gone.
pub proof fn lemma_an_action_gets_its_arguments(
    action: Action,
    program: Seq<char>,
    context: Context,
    machine: Machine,
)
    requires
        !program.contains('"'),
        program.len() == 0 || program.last() != '\\',
    ensures
        ({
            let l = launch::launched(action, program, context, machine);
            let n = action.arguments@.len() as int;
            let got = match action.kind {
                ActionKind::Exe => seq![l.program] + l.arguments,
                ActionKind::Powershell => l.arguments.skip(l.arguments.len() - n - 1),
                ActionKind::Cmd => arguments_of(
                    l.raw_tail->Some_0.subrange(1, l.raw_tail->Some_0.len() - 1),
                ),
            };
            &&& got.len() == n + 1
            &&& got[0] == program
            &&& forall|i: int|
                0 <= i < n ==> #[trigger] got[i + 1] == launch::expansion(
                    action.arguments@[i]@,
                    context.install_root@,
                    context.version@,
                    machine,
                )
            &&& action.kind == ActionKind::Cmd ==> l.arguments.len() == 3 && l.arguments[1] == "/s"@
                && l.arguments[2] == "/c"@ && l.raw_tail->Some_0[0] == '"'
                && l.raw_tail->Some_0.last() == '"'
            &&& action.kind == ActionKind::Powershell ==> l.arguments[l.arguments.len() - n - 2]
                == "-File"@
            &&& action.kind != ActionKind::Cmd ==> l.raw_tail is None
        }),
{
    let arguments = launch::expansions(
        action.arguments@,
        context.install_root@,
        context.version@,
        machine,
    );
    let l = launch::launched(action, program, context, machine);
    lemma_a_command_line_reads_back(program, arguments);
    let n = arguments.len() as int;
    match action.kind {
        ActionKind::Cmd => {
            let whole = line(program, arguments);
            assert(l.raw_tail->Some_0.subrange(1, l.raw_tail->Some_0.len() - 1) =~= whole);
        },
        ActionKind::Powershell => {
            assert(l.arguments.skip(l.arguments.len() - n - 1) =~= seq![program] + arguments);
        },
        ActionKind::Exe => {},
    }
}

}
