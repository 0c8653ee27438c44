//! What a package declares and what a run wants of it.

use vstd::prelude::*;

use crate::error::ErrorView;
use crate::lists;
use crate::machine::{DataView, Hive, KeyView, Machine, RuleView};
use crate::metadata;
use crate::metadata::{
    Directory, File, FirewallAction, FirewallDirection, FirewallProtocol,
    InstallOption, Metadata, OptionKind, OptionView, PathEntry, Predicate,
    RegistryKind, RegistryRoot, RegistryValue, Scope,
};
use crate::plan::desired;
use crate::plan::files;
use crate::plan::files::DesiredFileView;
use crate::plan::target;
use crate::resource::environment;
use crate::resource::firewall;
use crate::resource::integration;
use crate::resource::path;
use crate::resource::predicate;
use crate::resource::registration;
use crate::resource::registry;
use crate::resource::registry::DesiredValueView;
use crate::resource::shortcut;
use crate::scope;
use crate::state::installation::Owned;
use crate::text;

verus! {

/// Whether a condition is met: there is none, or the option it names has the
/// value it names.
pub open spec fn met(when: Option<Predicate>, options: Map<Seq<char>, OptionView>) -> bool {
    match when {
        None => true,
        Some(p) => exists|name: Seq<char>|
            name == text::lower(p.option@) && #[trigger] options.dom().contains(name)
                && options[name].text() == p.equals@,
    }
}

/// A resource is wanted exactly while its condition is met; the older spelling
/// counts where there is no condition.
pub proof fn lemma_when_a_resource_is_wanted(
    condition: Option<Predicate>,
    legacy: Seq<char>,
    options: Map<Seq<char>, OptionView>,
)
    ensures
        condition is Some || legacy.len() == 0 ==> (predicate::wanted(condition, legacy, options) <==> met(
            condition,
            options,
        )),
        condition is None && legacy.len() > 0 ==> (predicate::wanted(condition, legacy, options) <==> {
            &&& options.dom().contains(text::lower(legacy))
            &&& options[text::lower(legacy)].text() == "true"@
        }),
{
    if condition is Some {
        let name = text::lower(condition->Some_0.option@);
        if predicate::wanted(condition, legacy, options) {
            assert(options.dom().contains(name));
        }
    }
}

/// Whether a wanted file is one of the declared, with its condition met.
pub open spec fn comes_from(
    w: DesiredFileView,
    declared: Seq<File>,
    options: Map<Seq<char>, OptionView>,
) -> bool {
    exists|i: int|
        0 <= i < declared.len() && met((#[trigger] declared[i]).when, options) && w.path
            == text::replaced(declared[i].path@, '/', '\\') && w.entry == declared[i].entry@
            && w.size == declared[i].size
}

/// A declared file whose condition is met is wanted, under its path, with its
/// payload entry and size; nothing else is.
pub proof fn lemma_which_files_are_wanted(declared: Seq<File>, options: Map<Seq<char>, OptionView>)
    ensures
        forall|i: int|
            0 <= i < declared.len() && met((#[trigger] declared[i]).when, options) ==> exists|
                k: int,
            |
                0 <= k < desired::wanted_files(declared, options).len() && {
                    let w = #[trigger] desired::wanted_files(declared, options)[k];
                    &&& w.path == text::replaced(declared[i].path@, '/', '\\')
                    &&& w.entry == declared[i].entry@
                    &&& w.size == declared[i].size
                },
        forall|k: int|
            0 <= k < desired::wanted_files(declared, options).len() ==> comes_from(
                #[trigger] desired::wanted_files(declared, options)[k],
                declared,
                options,
            ),
{
    let on = desired::file_on(options);
    let kept = declared.filter(on);
    let wanted = desired::wanted_files(declared, options);
    assert forall|i: int| 0 <= i < declared.len() && met((#[trigger] declared[i]).when, options)
        implies exists|k: int|
        0 <= k < wanted.len() && {
            let w = #[trigger] wanted[k];
            &&& w.path == text::replaced(declared[i].path@, '/', '\\')
            &&& w.entry == declared[i].entry@
            &&& w.size == declared[i].size
        } by {
        lemma_when_a_resource_is_wanted(declared[i].when, Seq::empty(), options);
        lists::lemma_filter_holds(declared, on, i);
        let k = choose|k: int| 0 <= k < kept.len() && kept[k] == declared[i];
        assert(wanted[k].entry == declared[i].entry@);
    }
    assert forall|k: int| 0 <= k < wanted.len() implies comes_from(
        #[trigger] wanted[k],
        declared,
        options,
    ) by {
        lists::lemma_filter_from(declared, on, k);
        let i = choose|i: int| 0 <= i < declared.len() && declared[i] == kept[k];
        lemma_when_a_resource_is_wanted(declared[i].when, Seq::empty(), options);
        assert(wanted[k].entry == declared[i].entry@);
    }
}

/// The directories that are needed are the declared ones with a wanted file
/// below them.
proof fn lemma_needed_directories(declared: Seq<Directory>, wanted: Seq<DesiredFileView>)
    ensures
        forall|d: Seq<char>| #[trigger]
            desired::needed_directories(declared, wanted).contains(d) <==> {
                &&& exists|i: int|
                    0 <= i < declared.len() && text::replaced(
                        (#[trigger] declared[i]).path@,
                        '/',
                        '\\',
                    ) == d
                &&& exists|k: int|
                    0 <= k < wanted.len() && files::lies_above(d, (#[trigger] wanted[k]).path)
            },
    decreases declared.len(),
{
    if declared.len() > 0 {
        let before = declared.drop_last();
        lemma_needed_directories(before, wanted);
        let a = desired::needed_directories(before, wanted);
        let b = desired::needed_directories(declared, wanted);
        let n = declared.len() - 1;
        let path = text::replaced(declared[n].path@, '/', '\\');
        assert forall|d: Seq<char>| #[trigger] b.contains(d) <==> {
            &&& exists|i: int|
                0 <= i < declared.len() && text::replaced(
                    (#[trigger] declared[i]).path@,
                    '/',
                    '\\',
                ) == d
            &&& exists|k: int|
                0 <= k < wanted.len() && files::lies_above(d, (#[trigger] wanted[k]).path)
        } by {
            assert(b.contains(d) <==> a.contains(d) || (b != a && d == path)) by {
                if b != a {
                    assert(b == a.push(path));
                    assert(b[a.len() as int] == path);
                    if a.contains(d) {
                        let i = choose|i: int| 0 <= i < a.len() && a[i] == d;
                        assert(b[i] == d);
                    }
                    if b.contains(d) {
                        let i = choose|i: int| 0 <= i < b.len() && b[i] == d;
                        if i < a.len() {
                            assert(a[i] == d);
                        }
                    }
                }
            }
            if a.contains(d) {
                let i = choose|i: int|
                    0 <= i < before.len() && text::replaced(
                        (#[trigger] before[i]).path@,
                        '/',
                        '\\',
                    ) == d;
                assert(declared[i] == before[i]);
            }
            if exists|i: int|
                0 <= i < declared.len() && text::replaced(
                    (#[trigger] declared[i]).path@,
                    '/',
                    '\\',
                ) == d {
                let i = choose|i: int|
                    0 <= i < declared.len() && text::replaced(
                        (#[trigger] declared[i]).path@,
                        '/',
                        '\\',
                    ) == d;
                if i < n {
                    assert(before[i] == declared[i]);
                }
            }
            if b != a {
                assert(desired::holds_a_file(path, wanted));
            }
            if d == path && desired::holds_a_file(path, wanted) {
                assert(b == a.push(path));
            }
        }
    }
}

/// The wanted directories are the install root, first, and then the declared
/// directories with a wanted file below them, each once and each after those
/// that lie above it.
pub proof fn lemma_which_directories_are_wanted(
    declared: Seq<Directory>,
    wanted: Seq<DesiredFileView>,
)
    ensures
        ({
            let dirs = desired::wanted_directories(declared, wanted);
            &&& dirs.len() > 0
            &&& dirs[0].len() == 0
            &&& forall|d: Seq<char>| #[trigger]
                dirs.skip(1).contains(d) <==> {
                    &&& exists|i: int|
                        0 <= i < declared.len() && text::replaced(
                            (#[trigger] declared[i]).path@,
                            '/',
                            '\\',
                        ) == d
                    &&& exists|k: int|
                        0 <= k < wanted.len() && files::lies_above(d, (#[trigger] wanted[k]).path)
                }
            &&& forall|i: int, j: int|
                0 <= i < j < dirs.len() ==> lists::depth(#[trigger] dirs[i]) <= lists::depth(
                    #[trigger] dirs[j],
                )
        }),
{
    let needed = desired::needed_directories(declared, wanted);
    let once = lists::distinct(needed);
    let sorted = lists::shallow_first(once);
    let dirs = desired::wanted_directories(declared, wanted);
    lemma_needed_directories(declared, wanted);
    lists::lemma_distinct_keeps_each_once(needed);
    lists::lemma_shallow_first_is_ordered(once);
    assert(dirs.skip(1) =~= sorted);
    assert forall|d: Seq<char>| #[trigger] sorted.contains(d) <==> needed.contains(d) by {
        assert(once.contains(d) <==> needed.contains(d));
    }
    assert forall|i: int, j: int| 0 <= i < j < dirs.len() implies lists::depth(
        #[trigger] dirs[i],
    ) <= lists::depth(#[trigger] dirs[j]) by {
        if i > 0 {
            assert(dirs[i] == sorted[i - 1]);
            assert(dirs[j] == sorted[j - 1]);
        }
    }
}

/// A directory lies above exactly the paths that go on after it.
pub proof fn lemma_what_lies_above(directory: Seq<char>, rest: Seq<char>)
    requires
        directory.len() > 0,
    ensures
        files::lies_above(directory, directory + seq!['\\'] + rest),
{
    reveal_strlit("\\");
    assert("\\"@ =~= seq!['\\']);
    assert(directory + seq!['\\'] + rest =~= directory + "\\"@ + rest);
}

/// The wanted PATH entries: every declared entry that is wanted is one of
/// them, up to its spelling; each of them is a declared entry that is wanted;
/// and no two spell the same directory.
#[verifier::rlimit(50)]
pub proof fn lemma_which_path_entries_are_wanted(
    declared: Seq<PathEntry>,
    options: Map<Seq<char>, OptionView>,
    root: Seq<char>,
    machine: Machine,
)
    requires
        desired::wanted_entries(declared, options, root, machine) is Ok,
    ensures
        ({
            let wanted = desired::wanted_entries(declared, options, root, machine)->Ok_0;
            &&& forall|i: int|
                0 <= i < declared.len() && predicate::wanted(
                    (#[trigger] declared[i]).when,
                    declared[i].option@,
                    options,
                ) ==> entry_of(declared[i], root) is Ok && exists|k: int|
                    0 <= k < wanted.len() && path::normal(#[trigger] wanted[k], machine)
                        == path::normal(entry_of(declared[i], root)->Ok_0, machine)
            &&& forall|k: int|
                0 <= k < wanted.len() ==> exists|i: int|
                    0 <= i < declared.len() && predicate::wanted(
                        (#[trigger] declared[i]).when,
                        declared[i].option@,
                        options,
                    ) && entry_of(declared[i], root) == Ok::<Seq<char>, ErrorView>(
                        #[trigger] wanted[k],
                    )
            &&& forall|j: int, k: int|
                0 <= j < k < wanted.len() ==> path::normal(#[trigger] wanted[j], machine)
                    != path::normal(#[trigger] wanted[k], machine)
        }),
    decreases declared.len(),
{
    let wanted = desired::wanted_entries(declared, options, root, machine)->Ok_0;
    if declared.len() > 0 {
        let before = declared.drop_last();
        let n = declared.len() - 1;
        lemma_which_path_entries_are_wanted(before, options, root, machine);
        let old_wanted = desired::wanted_entries(before, options, root, machine)->Ok_0;
        let e = declared[n];
        let on = predicate::wanted(e.when, e.option@, options);
        let raw = entry_of(e, root)->Ok_0;
        lists::lemma_first_fits(old_wanted, desired::same_entry(raw, machine));
        let known = lists::first(old_wanted, desired::same_entry(raw, machine)) is Some;
        assert(wanted == if on && !known {
            old_wanted.push(raw)
        } else {
            old_wanted
        });
        assert forall|i: int|
            0 <= i < declared.len() && predicate::wanted(
                (#[trigger] declared[i]).when,
                declared[i].option@,
                options,
            ) implies entry_of(declared[i], root) is Ok && exists|k: int|
            0 <= k < wanted.len() && path::normal(#[trigger] wanted[k], machine) == path::normal(
                entry_of(declared[i], root)->Ok_0,
                machine,
            ) by {
            if i < n {
                assert(before[i] == declared[i]);
                let k = choose|k: int|
                    0 <= k < old_wanted.len() && path::normal(#[trigger] old_wanted[k], machine)
                        == path::normal(entry_of(before[i], root)->Ok_0, machine);
                assert(wanted[k] == old_wanted[k]);
            } else if known {
                let x = lists::first(old_wanted, desired::same_entry(raw, machine))->Some_0;
                let k = choose|k: int| 0 <= k < old_wanted.len() && old_wanted[k] == x;
                assert(wanted[k] == x);
            } else {
                assert(wanted[old_wanted.len() as int] == raw);
            }
        }
        assert forall|k: int| 0 <= k < wanted.len() implies exists|i: int|
            0 <= i < declared.len() && predicate::wanted(
                (#[trigger] declared[i]).when,
                declared[i].option@,
                options,
            ) && entry_of(declared[i], root) == Ok::<Seq<char>, ErrorView>(#[trigger] wanted[k]) by {
            if k < old_wanted.len() {
                assert(wanted[k] == old_wanted[k]);
                let i = choose|i: int|
                    0 <= i < before.len() && predicate::wanted(
                        (#[trigger] before[i]).when,
                        before[i].option@,
                        options,
                    ) && entry_of(before[i], root) == Ok::<Seq<char>, ErrorView>(old_wanted[k]);
                assert(declared[i] == before[i]);
            } else {
                assert(predicate::wanted(declared[n].when, declared[n].option@, options));
            }
        }
        assert forall|j: int, k: int| 0 <= j < k < wanted.len() implies path::normal(
            #[trigger] wanted[j],
            machine,
        ) != path::normal(#[trigger] wanted[k], machine) by {
            assert(wanted[j] == old_wanted[j]);
            if k < old_wanted.len() {
                assert(wanted[k] == old_wanted[k]);
            } else {
                assert(!desired::same_entry(raw, machine)(old_wanted[j]));
            }
        }
    }
}

/// The directory a declared PATH entry names, without separators at its end.
pub open spec fn entry_of(entry: PathEntry, root: Seq<char>) -> Result<Seq<char>, ErrorView> {
    match target::placed_at(root, text::replaced(entry.path@, '/', '\\')) {
        Ok(at) => Ok(text::trim_end(at, '\\')),
        Err(e) => Err(e),
    }
}

/// What an option comes to: what was asked for goes before what was recorded,
/// and that before the default; a text the option does not take counts for
/// nothing.
pub proof fn lemma_which_value_an_option_has(
    option: InstallOption,
    recorded: Map<Seq<char>, OptionView>,
    explicit: Map<Seq<char>, OptionView>,
)
    ensures
        ({
            let name = text::lower(option.name@);
            let v = desired::effective_value(option, recorded, explicit);
            &&& explicit.dom().contains(name) && metadata::value_from(
                option,
                explicit[name].text(),
            ) is Some ==> v == metadata::value_from(option, explicit[name].text())->Some_0
            &&& !explicit.dom().contains(name) && recorded.dom().contains(name)
                && metadata::value_from(option, recorded[name].text()) is Some ==> v
                == metadata::value_from(option, recorded[name].text())->Some_0
            &&& !explicit.dom().contains(name) && !recorded.dom().contains(name) ==> v == (
            if option.kind == OptionKind::Boolean {
                OptionView::Bool(option.default)
            } else {
                OptionView::Choice(option.default_choice@)
            })
        }),
{
}

/// The value of each declared option of a name of its own is in the run's
/// options.
pub proof fn lemma_each_option_has_its_value(
    options: Seq<InstallOption>,
    recorded: Map<Seq<char>, OptionView>,
    explicit: Map<Seq<char>, OptionView>,
    i: int,
)
    requires
        0 <= i < options.len(),
        forall|j: int|
            i < j < options.len() ==> text::lower((#[trigger] options[j]).name@) != text::lower(
                options[i].name@,
            ),
    ensures
        ({
            let all = desired::effective(options, recorded, explicit);
            let name = text::lower(options[i].name@);
            &&& all.dom().contains(name)
            &&& all[name] == desired::effective_value(options[i], recorded, explicit)
        }),
    decreases options.len(),
{
    if i < options.len() - 1 {
        let before = options.drop_last();
        assert(before[i] == options[i]);
        assert forall|j: int| i < j < before.len() implies text::lower(
            (#[trigger] before[j]).name@,
        ) != text::lower(before[i].name@) by {
            assert(before[j] == options[j]);
        }
        lemma_each_option_has_its_value(before, recorded, explicit, i);
        assert(text::lower(options[options.len() - 1].name@) != text::lower(options[i].name@));
    }
}

/// What a text means for an option: a boolean takes `true` and `on`, `false`
/// and `off`, and a choice takes its declared values, all without regard to
/// case; a choice is spelled as declared.
pub proof fn lemma_what_an_option_takes(option: InstallOption, given: Seq<char>)
    ensures
        ({
            let r = metadata::value_from(option, given);
            let word = text::lower(given);
            &&& option.kind == OptionKind::Boolean ==> {
                &&& r == Some(OptionView::Bool(true)) <==> word == "true"@ || word == "on"@
                &&& r == Some(OptionView::Bool(false)) <==> word == "false"@ || word == "off"@
                &&& r is None || r->Some_0 is Bool
            }
            &&& option.kind == OptionKind::Choice ==> {
                &&& r is Some <==> exists|i: int|
                    0 <= i < option.choices@.len() && text::lower(
                        (#[trigger] option.choices@[i]).value@,
                    ) == word
                &&& r is Some ==> r->Some_0 is Choice && exists|i: int|
                    0 <= i < option.choices@.len() && (#[trigger] option.choices@[i]).value@
                        == r->Some_0->Choice_0 && text::lower(option.choices@[i].value@) == word
            }
        }),
{
    reveal_strlit("true");
    reveal_strlit("on");
    reveal_strlit("false");
    reveal_strlit("off");
    assert("true"@[0] == 't');
    assert("on"@[0] == 'o');
    assert("off"@[0] == 'o');
    assert("false"@[0] == 'f');
    assert("on"@.len() == 2 && "off"@.len() == 3);
    let p = metadata::choice_is(given);
    lists::lemma_first_fits(option.choices@, p);
    if option.kind == OptionKind::Choice && metadata::value_from(option, given) is None {
        assert forall|i: int| 0 <= i < option.choices@.len() implies text::lower(
            (#[trigger] option.choices@[i]).value@,
        ) != text::lower(given) by {
            assert(!p(option.choices@[i]));
        }
    }
    if option.kind == OptionKind::Choice && metadata::value_from(option, given) is Some {
        let c = lists::first(option.choices@, p)->Some_0;
        let i = choose|i: int| 0 <= i < option.choices@.len() && option.choices@[i] == c;
        assert(option.choices@[i].value@ == c.value@);
    }
}

/// Whether a text occurs in another at a position.
pub open spec fn occurs_at(s: Seq<char>, pattern: Seq<char>, i: int) -> bool {
    0 <= i && i + pattern.len() <= s.len() && s.subrange(i, i + pattern.len()) == pattern
}

/// A text without the pattern stays as it is.
pub proof fn lemma_nothing_to_substitute(s: Seq<char>, pattern: Seq<char>, by: Seq<char>)
    requires
        forall|i: int| !#[trigger] occurs_at(s, pattern, i),
    ensures
        registry::substituted(s, pattern, by) == s,
    decreases s.len(),
{
    if pattern.len() > 0 && s.len() > 0 {
        if pattern.is_prefix_of(s) {
            assert(s.subrange(0, pattern.len() as int) =~= pattern);
            assert(occurs_at(s, pattern, 0));
        }
        let rest = s.drop_first();
        assert forall|i: int| !#[trigger] occurs_at(rest, pattern, i) by {
            if occurs_at(rest, pattern, i) {
                assert(s.subrange(i + 1, i + 1 + pattern.len()) =~= rest.subrange(
                    i,
                    i + pattern.len(),
                ));
                assert(occurs_at(s, pattern, i + 1));
            }
        }
        lemma_nothing_to_substitute(rest, pattern, by);
        assert(seq![s[0]] + rest =~= s);
    }
}

/// The first occurrence of the pattern is replaced, what stands before it
/// stays, and what follows it is treated alike.
pub proof fn lemma_an_occurrence_is_substituted(
    before: Seq<char>,
    pattern: Seq<char>,
    after: Seq<char>,
    by: Seq<char>,
)
    requires
        pattern.len() > 0,
        forall|i: int|
            0 <= i < before.len() ==> !#[trigger] occurs_at(before + pattern + after, pattern, i),
    ensures
        registry::substituted(before + pattern + after, pattern, by) == before + by
            + registry::substituted(after, pattern, by),
    decreases before.len(),
{
    let s = before + pattern + after;
    if before.len() == 0 {
        assert(pattern.is_prefix_of(s));
        assert(s.skip(pattern.len() as int) =~= after);
        assert(before + by + registry::substituted(after, pattern, by) =~= by
            + registry::substituted(after, pattern, by));
    } else {
        if pattern.is_prefix_of(s) {
            assert(s.subrange(0, pattern.len() as int) =~= pattern);
            assert(occurs_at(s, pattern, 0));
        }
        let less = before.drop_first();
        let rest = less + pattern + after;
        assert(s.drop_first() =~= rest);
        assert forall|i: int| 0 <= i < less.len() implies !#[trigger] occurs_at(
            rest,
            pattern,
            i,
        ) by {
            if occurs_at(rest, pattern, i) {
                assert(s.subrange(i + 1, i + 1 + pattern.len()) =~= rest.subrange(
                    i,
                    i + pattern.len(),
                ));
                assert(occurs_at(s, pattern, i + 1));
            }
        }
        lemma_an_occurrence_is_substituted(less, pattern, after, by);
        assert(s[0] == before[0]);
        assert(seq![s[0]] + (less + by + registry::substituted(after, pattern, by)) =~= before + by
            + registry::substituted(after, pattern, by));
    }
}

/// A template without `%` is taken as it is.
pub proof fn lemma_a_plain_template_is_itself(
    template: Seq<char>,
    root: Seq<char>,
    version: Seq<char>,
)
    requires
        !template.contains('%'),
    ensures
        registry::placed(template, root, version) == template,
{
    reveal_strlit("%INSTALLROOT%");
    reveal_strlit("%VERSION%");
    let a = "%INSTALLROOT%"@;
    let b = "%VERSION%"@;
    assert(a[0] == '%' && b[0] == '%');
    assert(a.len() > 0 && b.len() > 0);
    assert forall|i: int| !#[trigger] occurs_at(template, a, i) by {
        if occurs_at(template, a, i) {
            assert(template.subrange(i, i + a.len())[0] == template[i]);
            assert(template.contains('%'));
        }
    }
    assert forall|i: int| !#[trigger] occurs_at(template, b, i) by {
        if occurs_at(template, b, i) {
            assert(template.subrange(i, i + b.len())[0] == template[i]);
            assert(template.contains('%'));
        }
    }
    lemma_nothing_to_substitute(template, a, root);
    lemma_nothing_to_substitute(template, b, version);
}

/// A template that begins with the install root's name begins with the root,
/// where neither the root nor what follows the name holds a `%`.
pub proof fn lemma_a_template_below_the_root(
    rest: Seq<char>,
    root: Seq<char>,
    version: Seq<char>,
)
    requires
        !rest.contains('%'),
        !root.contains('%'),
    ensures
        registry::placed("%INSTALLROOT%"@ + rest, root, version) == root + rest,
{
    let name = "%INSTALLROOT%"@;
    reveal_strlit("%INSTALLROOT%");
    assert(name.len() > 0);
    assert(Seq::<char>::empty() + name + rest =~= name + rest);
    lemma_an_occurrence_is_substituted(Seq::empty(), name, rest, root);
    lemma_a_plain_template_is_itself(rest, root, version);
    lemma_no_name_in(rest, name);
    lemma_nothing_to_substitute(rest, name, root);
    assert(Seq::<char>::empty() + root + rest =~= root + rest);
    let whole = root + rest;
    assert(!whole.contains('%')) by {
        if whole.contains('%') {
            let i = choose|i: int| 0 <= i < whole.len() && whole[i] == '%';
            if i < root.len() {
                assert(root[i] == '%');
            } else {
                assert(rest[i - root.len()] == '%');
            }
        }
    }
    reveal_strlit("%VERSION%");
    assert("%VERSION%"@[0] == '%');
    lemma_no_name_in(whole, "%VERSION%"@);
    lemma_nothing_to_substitute(whole, "%VERSION%"@, version);
}

proof fn lemma_no_name_in(s: Seq<char>, name: Seq<char>)
    requires
        !s.contains('%'),
        name.len() > 0,
        name[0] == '%',
    ensures
        forall|i: int| !#[trigger] occurs_at(s, name, i),
{
    assert forall|i: int| !#[trigger] occurs_at(s, name, i) by {
        if occurs_at(s, name, i) {
            assert(s.subrange(i, i + name.len())[0] == s[i]);
            assert(s.contains('%'));
        }
    }
}

/// Where a declared registry value stands: under the software key of the
/// scope, or in the hive it names, which has to be the scope's.
pub proof fn lemma_where_a_registry_value_stands(value: RegistryValue, s: Scope)
    ensures
        ({
            let r = registry::declared_key(value, s);
            let own = if s == Scope::User {
                Hive::CurrentUser
            } else {
                Hive::LocalMachine
            };
            &&& value.root == RegistryRoot::Software ==> r is Ok && r->Ok_0.hive == own
                && r->Ok_0.subkey == "Software\\"@ + value.key@
            &&& value.root != RegistryRoot::Software && r is Ok ==> r->Ok_0.hive == own
                && r->Ok_0.subkey == value.key@
            &&& value.root == RegistryRoot::CurrentUser ==> (r is Ok <==> s == Scope::User)
            &&& value.root == RegistryRoot::LocalMachine ==> (r is Ok <==> s == Scope::Machine)
            &&& value.root == RegistryRoot::Unknown ==> r is Err
            &&& r is Err ==> r->Err_0.code == "registry_root_outside_scope"@
        }),
{
    reveal_strlit("Software");
    reveal_strlit("\\");
    reveal_strlit("Software\\");
    assert("Software"@ + "\\"@ + value.key@ =~= "Software\\"@ + value.key@) by {
        assert("Software"@ + "\\"@ =~= "Software\\"@);
    }
}

/// What a declared registry value is written as: its own name, and its data
/// with the names in it replaced, as a text or as the number it spells.
pub proof fn lemma_a_declared_registry_value(
    value: RegistryValue,
    s: Scope,
    root: Seq<char>,
    version: Seq<char>,
)
    ensures
        ({
            let r = registry::product_value(value, s, root, version);
            let data = registry::placed(value.data@, root, version);
            &&& r is Ok <==> {
                &&& registry::declared_key(value, s) is Ok
                &&& value.kind != RegistryKind::Unspecified
                &&& value.kind == RegistryKind::Dword ==> text::spells_u32(data) is Some
            }
            &&& r is Ok ==> r->Ok_0.name == value.name@ && Ok::<KeyView, ErrorView>(r->Ok_0.key)
                == registry::declared_key(value, s)
            &&& r is Ok && value.kind == RegistryKind::String ==> r->Ok_0.data == DataView::String(
                data,
            )
            &&& r is Ok && value.kind == RegistryKind::ExpandString ==> r->Ok_0.data
                == DataView::ExpandString(data)
            &&& r is Ok && value.kind == RegistryKind::Dword ==> r->Ok_0.data == DataView::Dword(
                text::spells_u32(data)->Some_0,
            )
        }),
{
}

/// Every declared registry value whose condition is met is wanted as declared,
/// and nothing else is.
pub proof fn lemma_which_registry_values_are_wanted(
    m: Metadata,
    options: Map<Seq<char>, OptionView>,
    s: Scope,
    root: Seq<char>,
)
    requires
        lists::all(registry::product_steps(m, options, s, root)) is Ok,
    ensures
        ({
            let wanted = lists::all(registry::product_steps(m, options, s, root))->Ok_0;
            let declared = m.registry_values@;
            &&& forall|i: int|
                0 <= i < declared.len() && met((#[trigger] declared[i]).when, options)
                    ==> registry::product_value(declared[i], s, root, m.package.version@) is Ok
                    && wanted.contains(
                    registry::product_value(declared[i], s, root, m.package.version@)->Ok_0,
                )
            &&& forall|k: int|
                0 <= k < wanted.len() ==> exists|i: int|
                    0 <= i < declared.len() && met((#[trigger] declared[i]).when, options)
                        && registry::product_value(declared[i], s, root, m.package.version@)
                        == Ok::<DesiredValueView, ErrorView>(#[trigger] wanted[k])
        }),
{
    let steps = registry::product_steps(m, options, s, root);
    let wanted = lists::all(steps)->Ok_0;
    let declared = m.registry_values@;
    let on = registry::value_wanted(options);
    let kept = declared.filter(on);
    lists::lemma_all_gives(steps);
    assert forall|i: int| 0 <= i < declared.len() && met((#[trigger] declared[i]).when, options)
        implies registry::product_value(declared[i], s, root, m.package.version@) is Ok
        && wanted.contains(
        registry::product_value(declared[i], s, root, m.package.version@)->Ok_0,
    ) by {
        lemma_when_a_resource_is_wanted(declared[i].when, Seq::empty(), options);
        lists::lemma_filter_holds(declared, on, i);
        let k = choose|k: int| 0 <= k < kept.len() && kept[k] == declared[i];
        assert(steps[k] == Ok::<DesiredValueView, ErrorView>(wanted[k]));
    }
    assert forall|k: int| 0 <= k < wanted.len() implies exists|i: int|
        0 <= i < declared.len() && met((#[trigger] declared[i]).when, options)
            && registry::product_value(declared[i], s, root, m.package.version@) == Ok::<
            DesiredValueView,
            ErrorView,
        >(#[trigger] wanted[k]) by {
        lists::lemma_filter_from(declared, on, k);
        let i = choose|i: int| 0 <= i < declared.len() && declared[i] == kept[k];
        lemma_when_a_resource_is_wanted(declared[i].when, Seq::empty(), options);
        assert(steps[k] == Ok::<DesiredValueView, ErrorView>(wanted[k]));
    }
}

/// A wanted environment variable stands under the scope's environment key with
/// its declared name; its value is the declared one with the names in it
/// replaced, for Windows to expand where it is declared so.
pub proof fn lemma_a_declared_variable(
    m: Metadata,
    options: Map<Seq<char>, OptionView>,
    s: Scope,
    root: Seq<char>,
    i: int,
)
    requires
        0 <= i < m.environment_variables@.len(),
        met(m.environment_variables@[i].when, options),
    ensures
        ({
            let v = m.environment_variables@[i];
            let wanted = environment::variables_for(
                m.environment_variables@.filter(environment::variable_wanted(options)),
                scope::environment_key(s),
                root,
                m.package.version@,
            );
            let value = registry::placed(v.value@, root, m.package.version@);
            exists|k: int|
                0 <= k < wanted.len() && (#[trigger] wanted[k]).name == v.name@ && wanted[k].key
                    == scope::environment_key(s) && wanted[k].data == (if v.expandable {
                    DataView::ExpandString(value)
                } else {
                    DataView::String(value)
                })
        }),
{
    let v = m.environment_variables@[i];
    let on = environment::variable_wanted(options);
    let kept = m.environment_variables@.filter(on);
    lemma_when_a_resource_is_wanted(v.when, Seq::empty(), options);
    lists::lemma_filter_holds(m.environment_variables@, on, i);
    let k = choose|k: int| 0 <= k < kept.len() && kept[k] == v;
    let wanted = environment::variables_for(
        kept,
        scope::environment_key(s),
        root,
        m.package.version@,
    );
    assert(wanted[k].name == v.name@);
}

/// A wanted variable is a declared one whose condition is met.
pub proof fn lemma_a_wanted_variable_is_declared(
    m: Metadata,
    options: Map<Seq<char>, OptionView>,
    key: KeyView,
    root: Seq<char>,
    k: int,
)
    requires
        0 <= k < environment::variables_for(
            m.environment_variables@.filter(environment::variable_wanted(options)),
            key,
            root,
            m.package.version@,
        ).len(),
    ensures
        exists|i: int|
            0 <= i < m.environment_variables@.len() && met(
                (#[trigger] m.environment_variables@[i]).when,
                options,
            ) && environment::variables_for(
                m.environment_variables@.filter(environment::variable_wanted(options)),
                key,
                root,
                m.package.version@,
            )[k].name == m.environment_variables@[i].name@,
{
    let on = environment::variable_wanted(options);
    let all = m.environment_variables@;
    lists::lemma_filter_from(all, on, k);
    let i = choose|i: int| 0 <= i < all.len() && all[i] == all.filter(on)[k];
    lemma_when_a_resource_is_wanted(all[i].when, Seq::empty(), options);
}

/// A declared firewall rule whose condition is met is wanted as declared,
/// enabled, in the package's own group, for the program below the install
/// root; where the program has no place there, nothing is wanted.
pub proof fn lemma_a_declared_rule(
    m: Metadata,
    options: Map<Seq<char>, OptionView>,
    root: Seq<char>,
    i: int,
)
    requires
        0 <= i < m.firewall_rules@.len(),
        met(m.firewall_rules@[i].when, options),
        firewall::wanted_rules(m, options, root) is Ok,
    ensures
        ({
            let rule = m.firewall_rules@[i];
            let wanted = firewall::wanted_rules(m, options, root)->Ok_0;
            let place = target::placed_at(root, text::replaced(rule.program@, '/', '\\'));
            &&& place is Ok
            &&& exists|k: int|
                0 <= k < wanted.len() && {
                    let w = #[trigger] wanted[k];
                    &&& w.name == rule.name@
                    &&& w.description == rule.description@
                    &&& w.grouping == "TigerSetup: "@ + m.package.name@
                    &&& w.program == place->Ok_0
                    &&& w.local_ports == rule.local_ports@
                    &&& w.enabled
                    &&& w.direction == (if rule.direction == FirewallDirection::In {
                        "in"@
                    } else {
                        "out"@
                    })
                    &&& w.action == (if rule.action == FirewallAction::Allow {
                        "allow"@
                    } else {
                        "block"@
                    })
                    &&& w.protocol == (if rule.protocol == FirewallProtocol::Any {
                        "any"@
                    } else if rule.protocol == FirewallProtocol::Tcp {
                        "tcp"@
                    } else {
                        "udp"@
                    })
                }
        }),
{
    let rule = m.firewall_rules@[i];
    let steps = firewall::rule_steps(m, options, root);
    lemma_when_a_resource_is_wanted(rule.when, Seq::empty(), options);
    lists::lemma_gathering_keeps(steps, i);
    let got = steps[i]->Ok_0.0;
    let wanted = firewall::wanted_rules(m, options, root)->Ok_0;
    assert(wanted.contains(got[0]));
    let k = choose|k: int| 0 <= k < wanted.len() && wanted[k] == got[0];
    assert(wanted[k].name == rule.name@);
}

/// A wanted firewall rule is a declared one whose condition is met.
pub proof fn lemma_a_wanted_rule_is_declared(
    m: Metadata,
    options: Map<Seq<char>, OptionView>,
    root: Seq<char>,
    k: int,
)
    requires
        firewall::wanted_rules(m, options, root) is Ok,
        0 <= k < firewall::wanted_rules(m, options, root)->Ok_0.len(),
    ensures
        exists|i: int|
            0 <= i < m.firewall_rules@.len() && met((#[trigger] m.firewall_rules@[i]).when, options)
                && firewall::wanted_rules(m, options, root)->Ok_0[k].name
                == m.firewall_rules@[i].name@,
{
    let steps = firewall::rule_steps(m, options, root);
    let w = firewall::wanted_rules(m, options, root)->Ok_0[k];
    assert(lists::gathered(steps)->Ok_0.0.contains(w));
    lists::lemma_gathering_invents_nothing(steps, w);
    let i = choose|i: int| 0 <= i < steps.len() && (#[trigger] steps[i])->Ok_0.0.contains(w);
    lists::lemma_gathering_keeps(steps, i);
    lemma_when_a_resource_is_wanted(m.firewall_rules@[i].when, Seq::empty(), options);
}

/// Everything that is declared for a run has its place in what the run wants,
/// and the registration stands under the scope's key for installed programs.
pub proof fn lemma_everything_declared_has_its_place(
    m: Metadata,
    o: Map<Seq<char>, OptionView>,
    s: Scope,
    root: Seq<char>,
    uninstaller: Seq<char>,
    date: Seq<char>,
    machine: Machine,
    owned: Owned,
)
    requires
        desired::resolved(m, o, s, root, uninstaller, date, machine, owned) is Ok,
    ensures
        ({
            let w = desired::resolved(m, o, s, root, uninstaller, date, machine, owned)->Ok_0;
            let product = lists::all(registry::product_steps(m, o, s, root));
            let hooks = integration::compiled(m, o, scope::software_root(s), root, machine, owned);
            let links = lists::gathered(shortcut::shortcut_steps(m, o, s, root, machine));
            let key = scope::uninstall_root(s).child(m.key_name());
            &&& w.files == desired::wanted_files(m.files@, o)
            &&& w.directories == desired::wanted_directories(m.directories@, w.files)
            &&& desired::wanted_entries(m.path_entries@, o, root, machine) == Ok::<
                Seq<Seq<char>>,
                ErrorView,
            >(w.path_entries)
            &&& product is Ok && hooks is Ok && links is Ok
            &&& lists::within(product->Ok_0, w.registry_values)
            &&& lists::within(
                integration::enabled_values(hooks->Ok_0.0),
                w.registry_values,
            )
            &&& w.registry_values.len() == product->Ok_0.len() + integration::enabled_values(
                hooks->Ok_0.0,
            ).len()
            &&& w.integrations == hooks->Ok_0.0
            &&& w.shortcuts == links->Ok_0.0
            &&& lists::within(links->Ok_0.1, w.findings)
            &&& lists::within(hooks->Ok_0.1, w.findings)
            &&& firewall::wanted_rules(m, o, root) == Ok::<Seq<RuleView>, ErrorView>(
                w.firewall_rules,
            )
            &&& w.environment_variables == environment::variables_for(
                m.environment_variables@.filter(environment::variable_wanted(o)),
                scope::environment_key(s),
                root,
                m.package.version@,
            )
            &&& w.registration_key == key
            &&& registration::registration_values(m, key, root, uninstaller, date) == Ok::<
                Seq<DesiredValueView>,
                ErrorView,
            >(w.registration_values)
        }),
{
    let w = desired::resolved(m, o, s, root, uninstaller, date, machine, owned)->Ok_0;
    let product = lists::all(registry::product_steps(m, o, s, root))->Ok_0;
    let hooks = integration::compiled(
        m,
        o,
        scope::software_root(s),
        root,
        machine,
        owned,
    )->Ok_0;
    let on = integration::enabled_values(hooks.0);
    let links = lists::gathered(shortcut::shortcut_steps(m, o, s, root, machine))->Ok_0;
    assert(w.registry_values == product + on);
    assert(w.findings == links.1 + hooks.1);
    lemma_both_within(product, on);
    lemma_both_within(links.1, hooks.1);
}

proof fn lemma_both_within<T>(a: Seq<T>, b: Seq<T>)
    ensures
        lists::within(a, a + b),
        lists::within(b, a + b),
{
    assert forall|k: int| 0 <= k < a.len() implies (a + b).contains(#[trigger] a[k]) by {
        assert((a + b)[k] == a[k]);
    }
    assert forall|k: int| 0 <= k < b.len() implies (a + b).contains(#[trigger] b[k]) by {
        assert((a + b)[a.len() + k] == b[k]);
    }
}

}
