//! Where an installation keeps its state: the templates a scope and a product
//! derive, and their expansion over the machine's known folders.

use vstd::prelude::*;
use vstd::string::*;

use crate::error::{Error, ErrorView};
use crate::machine::Machine;
use crate::metadata::Scope;
use crate::resource::path;
use crate::text;

verus! {

/// The template of a product's state directory.
pub open spec fn state_template(scope: Scope, product_id: Seq<char>) -> Seq<char> {
    match scope {
        Scope::User => "%LOCALAPPDATA%\\TigerSetup\\"@ + product_id,
        Scope::Machine => "%PROGRAMDATA%\\TigerSetup\\"@ + product_id,
    }
}

/// The template of a product's state directory.
pub fn state_directory_template(scope: Scope, product_id: &str) -> (r: String)
    ensures
        r@ == state_template(scope, product_id@),
{
    match scope {
        Scope::User => text::cat2("%LOCALAPPDATA%\\TigerSetup\\", product_id),
        Scope::Machine => text::cat2("%PROGRAMDATA%\\TigerSetup\\", product_id),
    }
}

/// What a template that names no folder of this machine is refused with.
pub open spec fn no_such_folder(name: Seq<char>) -> ErrorView {
    ErrorView {
        code: "known_folder_unavailable"@,
        message: "this machine has no known folder "@ + name,
    }
}

/// What a placeholder names: a known folder and, where the environment counts
/// too, a variable of the process that is not empty, without the separators at
/// its end.
pub open spec fn place(name: Seq<char>, machine: Machine, environment: bool) -> Option<Seq<char>> {
    match machine.folder(name) {
        Some(folder) => Some(folder),
        None => if environment {
            match machine.variable(name) {
                Some(value) => if text::trim_end(value, '\\').len() > 0 {
                    Some(text::trim_end(value, '\\'))
                } else {
                    None
                },
                None => None,
            }
        } else {
            None
        },
    }
}

/// A template with every `%NAME%` replaced by what it names, or the first name
/// that names nothing. A `%` that closes no name stays.
pub open spec fn filled(s: Seq<char>, machine: Machine, environment: bool) -> Result<
    Seq<char>,
    ErrorView,
>
    decreases s.len(),
{
    match text::find(s, '%') {
        None => Ok(s),
        Some(start) => {
            proof {
                text::lemma_find(s, '%');
                text::lemma_find(s.skip(start + 1), '%');
            }
            let before = s.take(start);
            let after = s.skip(start + 1);
            match path::closing(after) {
                Some(end) => match place(after.take(end), machine, environment) {
                    None => Err(no_such_folder(after.take(end))),
                    Some(folder) => match filled(after.skip(end + 1), machine, environment) {
                        Ok(rest) => Ok(before + folder + rest),
                        Err(e) => Err(e),
                    },
                },
                None => match filled(after, machine, environment) {
                    Ok(rest) => Ok(before + seq!['%'] + rest),
                    Err(e) => Err(e),
                },
            }
        },
    }
}

/// A template with every `%NAME%` replaced by the known folder it names.
pub open spec fn template(s: Seq<char>, machine: Machine) -> Result<Seq<char>, ErrorView> {
    filled(s, machine, false)
}

/// Whether a result is what a specification says, each side by its view.
pub open spec fn agrees(r: Result<String, Error>, s: Result<Seq<char>, ErrorView>) -> bool {
    match (r, s) {
        (Ok(a), Ok(b)) => a@ == b,
        (Err(a), Err(b)) => a@ == b,
        _ => false,
    }
}

/// Expands a template over the machine's known folders.
pub fn expand_template(given: &str, machine: &Machine) -> (r: Result<String, Error>)
    ensures
        agrees(r, template(given@, *machine)),
{
    let v = text::chars_of(given);
    assert(v@.skip(0) =~= v@);
    expand_from(&v, 0, machine, false)
}

/// Expands a template over the machine's known folders and, after those, the
/// variables of the process.
pub fn expand_with_environment(given: &str, machine: &Machine) -> (r: Result<String, Error>)
    ensures
        agrees(r, filled(given@, *machine, true)),
{
    let v = text::chars_of(given);
    assert(v@.skip(0) =~= v@);
    expand_from(&v, 0, machine, true)
}

fn place_of(name: &str, machine: &Machine, environment: bool) -> (r: Option<String>)
    ensures
        text::option_view(r) == place(name@, *machine, environment),
{
    match machine.known_folder(name) {
        Some(folder) => Some(text::owned(folder)),
        None => if environment {
            match machine.environment_variable(name) {
                Some(value) => {
                    let value = text::trim_end_of(value, '\\');
                    if value.as_str().is_empty() {
                        None
                    } else {
                        Some(value)
                    }
                },
                None => None,
            }
        } else {
            None
        },
    }
}

/// Expands a template from `at` on.
fn expand_from(v: &Vec<char>, at: usize, machine: &Machine, environment: bool) -> (r: Result<
    String,
    Error,
>)
    requires
        at <= v@.len(),
    ensures
        agrees(r, filled(v@.skip(at as int), *machine, environment)),
    decreases v@.len() - at,
{
    let n: usize = v.len();
    let ghost rest = v@.skip(at as int);
    proof {
        text::lemma_find(rest, '%');
    }
    match text::find_from(v, at, '%') {
        None => {
            let tail = text::slice_of(v, at, n);
            assert(tail@ =~= rest);
            Ok(text::string_of(&tail))
        },
        Some(start) => {
            let before = text::slice_of(v, at, start);
            assert(before@ =~= rest.take(start - at));
            let mut out = text::string_of(&before);
            assert(rest.skip(start - at + 1) =~= v@.skip(start + 1));
            match path::closing_from(v, start + 1) {
                Some(end) => {
                    let name = text::slice_of(v, start + 1, end);
                    assert(name@ =~= v@.skip(start + 1).take(end - start - 1));
                    let name = text::string_of(&name);
                    match place_of(name.as_str(), machine, environment) {
                        None => {
                            let message = text::cat2(
                                "this machine has no known folder ",
                                name.as_str(),
                            );
                            Err(Error::new("known_folder_unavailable", message.as_str()))
                        },
                        Some(folder) => {
                            assert(v@.skip(start + 1).skip(end - start) =~= v@.skip(end + 1));
                            match expand_from(v, end + 1, machine, environment) {
                                Err(e) => Err(e),
                                Ok(more) => {
                                    out.append(folder.as_str());
                                    out.append(more.as_str());
                                    Ok(out)
                                },
                            }
                        },
                    }
                },
                None => match expand_from(v, start + 1, machine, environment) {
                    Err(e) => Err(e),
                    Ok(more) => {
                        out.push('%');
                        out.append(more.as_str());
                        assert(out@ =~= rest.take(start - at) + seq!['%'] + more@);
                        Ok(out)
                    },
                },
            }
        },
    }
}

/// The number a component of a version spells; 0 where it spells none.
pub open spec fn component(p: Seq<char>) -> u64 {
    match text::spells_u64(p) {
        Some(n) => n,
        None => 0,
    }
}

/// The components of a version.
pub open spec fn components(version: Seq<char>) -> Seq<u64> {
    text::split(version, '.').map_values(|p: Seq<char>| component(p))
}

/// Whether one list of components is above another, the first that differ
/// deciding; a missing component is 0.
pub open spec fn above(a: Seq<u64>, b: Seq<u64>) -> bool
    decreases a.len() + b.len(),
{
    if a.len() == 0 && b.len() == 0 {
        false
    } else {
        let x = if a.len() > 0 {
            a[0]
        } else {
            0
        };
        let y = if b.len() > 0 {
            b[0]
        } else {
            0
        };
        let more = if a.len() > 0 {
            a.skip(1)
        } else {
            a
        };
        let rest = if b.len() > 0 {
            b.skip(1)
        } else {
            b
        };
        x > y || (x == y && above(more, rest))
    }
}

/// Whether a version is above another.
pub open spec fn is_above(a: Seq<char>, b: Seq<char>) -> bool {
    above(components(a), components(b))
}

/// Whether a version satisfies a minimum: it has the minimum's major and is
/// not lower; any version satisfies where no minimum is declared.
pub open spec fn satisfies(version: Seq<char>, minimum: Seq<char>) -> bool {
    minimum.len() == 0 || (components(version)[0] == components(minimum)[0] && !is_above(
        minimum,
        version,
    ))
}

fn components_of(version: &str) -> (r: Vec<u64>)
    ensures
        r@ == components(version@),
        r@.len() > 0,
{
    let parts = text::split_of(version, '.');
    let ghost all = text::split(version@, '.');
    proof {
        text::lemma_split_nonempty(version@, '.');
    }
    let mut out: Vec<u64> = Vec::new();
    let mut i: usize = 0;
    while i < parts.len()
        invariant
            i <= parts@.len(),
            all == text::split(version@, '.'),
            all == text::views(parts@),
            out@.len() == i,
            forall|j: int| 0 <= j < i ==> #[trigger] out@[j] == component(all[j]),
        decreases parts@.len() - i,
    {
        assert(all[i as int] == parts@[i as int]@);
        let n = match text::parse_u64(parts[i].as_str()) {
            Some(n) => n,
            None => 0,
        };
        out.push(n);
        i = i + 1;
    }
    assert(out@ =~= components(version@));
    out
}

/// Whether a version is above another.
pub fn is_above_of(a: &str, b: &str) -> (r: bool)
    ensures
        r == is_above(a@, b@),
{
    let x = components_of(a);
    let y = components_of(b);
    let n = if x.len() > y.len() {
        x.len()
    } else {
        y.len()
    };
    let mut i: usize = 0;
    proof {
        assert(x@.skip(0) =~= x@);
        assert(y@.skip(0) =~= y@);
    }
    while i < n
        invariant
            i <= n,
            n == x@.len() || n == y@.len(),
            x@.len() <= n,
            y@.len() <= n,
            x@ == components(a@),
            y@ == components(b@),
            is_above(a@, b@) == above(from(x@, i as int), from(y@, i as int)),
        decreases n - i,
    {
        let p = if i < x.len() {
            x[i]
        } else {
            0
        };
        let q = if i < y.len() {
            y[i]
        } else {
            0
        };
        proof {
            lemma_from(x@, i as int);
            lemma_from(y@, i as int);
        }
        if p > q {
            return true;
        }
        if p < q {
            return false;
        }
        i = i + 1;
    }
    false
}

/// The end of a list that starts at `i`.
spec fn from(s: Seq<u64>, i: int) -> Seq<u64> {
    if i < s.len() {
        s.skip(i)
    } else {
        Seq::empty()
    }
}

proof fn lemma_from(s: Seq<u64>, i: int)
    requires
        0 <= i,
    ensures
        from(s, i).len() > 0 <==> i < s.len(),
        i < s.len() ==> from(s, i)[0] == s[i] && from(s, i).skip(1) == from(s, i + 1),
        i >= s.len() ==> from(s, i) == from(s, i + 1),
{
    if i < s.len() {
        assert(s.skip(i).skip(1) =~= from(s, i + 1));
    }
}

/// Whether a version satisfies a minimum.
pub fn version_satisfies(version: &str, minimum: &str) -> (r: bool)
    ensures
        r == satisfies(version@, minimum@),
{
    if minimum.is_empty() {
        return true;
    }
    let have = components_of(version);
    let want = components_of(minimum);
    have[0] == want[0] && !is_above_of(minimum, version)
}

/// No list of components is above itself, and what is not above a second that
/// is not above a third is not above the third.
proof fn lemma_above_order(a: Seq<u64>, b: Seq<u64>, c: Seq<u64>)
    ensures
        !above(a, a),
        !(above(a, b) && above(b, a)),
        !above(a, b) && !above(b, c) ==> !above(a, c),
    decreases a.len() + b.len() + c.len(),
{
    if a.len() + b.len() + c.len() > 0 {
        let more = if a.len() > 0 {
            a.skip(1)
        } else {
            a
        };
        let rest = if b.len() > 0 {
            b.skip(1)
        } else {
            b
        };
        let last = if c.len() > 0 {
            c.skip(1)
        } else {
            c
        };
        lemma_above_order(more, rest, last);
    }
}

/// Versions are ordered: none is above itself, of two at most one is above the
/// other, and the order carries over a version between them.
pub proof fn lemma_versions_are_ordered(a: Seq<char>, b: Seq<char>, c: Seq<char>)
    ensures
        !is_above(a, a),
        !(is_above(a, b) && is_above(b, a)),
        !is_above(a, b) && !is_above(b, c) ==> !is_above(a, c),
{
    lemma_above_order(components(a), components(b), components(c));
}

/// The component of a version at a place; one that is missing is 0.
pub open spec fn component_at(version: Seq<char>, i: int) -> u64 {
    if 0 <= i < components(version).len() {
        components(version)[i]
    } else {
        0
    }
}

/// The components of a version are the numbers between its dots: two versions
/// with a dot between them have the components of both, and a number is its
/// one component.
pub proof fn lemma_components_are_the_numbers_between_dots(a: Seq<char>, b: Seq<char>, n: u64)
    ensures
        components(a + seq!['.'] + b) == components(a) + components(b),
        components(text::decimal(n as nat)) == seq![n],
{
    text::lemma_split_concat(a, b, '.');
    assert(components(a + seq!['.'] + b) =~= components(a) + components(b));
    let digits = text::decimal(n as nat);
    text::lemma_decimal_number(n as nat);
    assert(!digits.contains('.')) by {
        if digits.contains('.') {
            let i = choose|i: int| 0 <= i < digits.len() && digits[i] == '.';
            assert(text::is_digit(digits[i]));
        }
    }
    text::lemma_split_single(digits, '.');
    assert(components(digits) =~= seq![n]);
}

/// The number at a place; one that is missing is 0.
spec fn nth(s: Seq<u64>, i: int) -> u64 {
    if 0 <= i < s.len() {
        s[i]
    } else {
        0
    }
}

spec fn behind(s: Seq<u64>) -> Seq<u64> {
    if s.len() > 0 {
        s.skip(1)
    } else {
        s
    }
}

proof fn lemma_above_at(a: Seq<u64>, b: Seq<u64>, i: int)
    requires
        0 <= i,
        forall|j: int| 0 <= j < i ==> #[trigger] nth(a, j) == nth(b, j),
        nth(a, i) > nth(b, i),
    ensures
        above(a, b),
        !above(b, a),
    decreases i,
{
    if i > 0 {
        assert forall|j: int| 0 <= j < i - 1 implies #[trigger] nth(behind(a), j) == nth(
            behind(b),
            j,
        ) by {
            assert(nth(a, j + 1) == nth(b, j + 1));
        }
        assert(nth(a, 0) == nth(b, 0));
        lemma_above_at(behind(a), behind(b), i - 1);
    }
    lemma_above_order(a, b, a);
}

proof fn lemma_above_nowhere(a: Seq<u64>, b: Seq<u64>)
    requires
        forall|j: int| 0 <= j ==> #[trigger] nth(a, j) == nth(b, j),
    ensures
        !above(a, b),
    decreases a.len() + b.len(),
{
    if a.len() + b.len() > 0 {
        assert forall|j: int| 0 <= j implies #[trigger] nth(behind(a), j) == nth(behind(b), j) by {
            assert(nth(a, j + 1) == nth(b, j + 1));
        }
        assert(nth(a, 0) == nth(b, 0));
        lemma_above_nowhere(behind(a), behind(b));
    }
}

/// Of two versions the first component that differs decides which is above,
/// and one that is missing counts as 0.
pub proof fn lemma_the_first_difference_decides(a: Seq<char>, b: Seq<char>, i: int)
    requires
        0 <= i,
        forall|j: int| 0 <= j < i ==> #[trigger] component_at(a, j) == component_at(b, j),
        component_at(a, i) > component_at(b, i),
    ensures
        is_above(a, b),
        !is_above(b, a),
{
    let x = components(a);
    let y = components(b);
    assert forall|j: int| 0 <= j < i implies #[trigger] nth(x, j) == nth(y, j) by {
        assert(component_at(a, j) == component_at(b, j));
    }
    lemma_above_at(x, y, i);
}

/// Versions that differ in no component are not above each other.
pub proof fn lemma_versions_that_count_alike_are_level(a: Seq<char>, b: Seq<char>)
    requires
        forall|j: int| 0 <= j ==> #[trigger] component_at(a, j) == component_at(b, j),
    ensures
        !is_above(a, b),
{
    let x = components(a);
    let y = components(b);
    assert forall|j: int| 0 <= j implies #[trigger] nth(x, j) == nth(y, j) by {
        assert(component_at(a, j) == component_at(b, j));
    }
    lemma_above_nowhere(x, y);
}

/// A declared minimum is satisfied by the versions of its major that are not
/// below it, and by no others: the minimum itself does, a newer one of the
/// major does where an older one does, and nothing below it or of another
/// major does.
pub proof fn lemma_what_satisfies_a_minimum(v: Seq<char>, w: Seq<char>, minimum: Seq<char>)
    requires
        minimum.len() > 0,
    ensures
        satisfies(minimum, minimum),
        satisfies(v, minimum) ==> component_at(v, 0) == component_at(minimum, 0),
        satisfies(v, minimum) ==> !is_above(minimum, v),
        component_at(v, 0) == component_at(minimum, 0) && !is_above(minimum, v) ==> satisfies(
            v,
            minimum,
        ),
        satisfies(v, minimum) && !is_above(v, w) && component_at(w, 0) == component_at(v, 0)
            ==> satisfies(w, minimum),
        is_above(v, minimum) && component_at(v, 0) == component_at(minimum, 0) ==> satisfies(
            v,
            minimum,
        ),
        satisfies(v, Seq::<char>::empty()),
{
    text::lemma_split_nonempty(v, '.');
    text::lemma_split_nonempty(w, '.');
    text::lemma_split_nonempty(minimum, '.');
    lemma_versions_are_ordered(minimum, v, w);
    lemma_versions_are_ordered(v, minimum, minimum);
}

/// A template without `%` is taken as it is.
pub proof fn lemma_a_template_without_names(s: Seq<char>, machine: Machine, environment: bool)
    requires
        !s.contains('%'),
    ensures
        filled(s, machine, environment) == Ok::<Seq<char>, ErrorView>(s),
{
    text::lemma_find(s, '%');
    if text::find(s, '%') is Some {
        assert(s[text::find(s, '%')->Some_0] == '%');
    }
}

/// A name between two `%` is a known folder, or, where that is allowed, a
/// variable with something in it, without separators at its end; any other
/// name is an error.
pub proof fn lemma_a_named_folder_is_filled_in(
    before: Seq<char>,
    name: Seq<char>,
    rest: Seq<char>,
    machine: Machine,
    environment: bool,
)
    requires
        !before.contains('%'),
        !name.contains('%'),
        name.len() > 0,
    ensures
        ({
            let r = filled(
                before + seq!['%'] + name + seq!['%'] + rest,
                machine,
                environment,
            );
            let tail = filled(rest, machine, environment);
            let variable = machine.variable(name);
            &&& machine.folder(name) is Some ==> r == match tail {
                Ok(t) => Ok::<Seq<char>, ErrorView>(before + machine.folder(name)->Some_0 + t),
                Err(e) => Err(e),
            }
            &&& machine.folder(name) is None && environment && variable is Some && text::trim_end(
                variable->Some_0,
                '\\',
            ).len() > 0 ==> r == match tail {
                Ok(t) => Ok::<Seq<char>, ErrorView>(
                    before + text::trim_end(variable->Some_0, '\\') + t,
                ),
                Err(e) => Err(e),
            }
            &&& machine.folder(name) is None && (!environment || variable is None) ==> r is Err
                && r->Err_0.code == "known_folder_unavailable"@
        }),
{
    let s = before + seq!['%'] + name + seq!['%'] + rest;
    let start = before.len() as int;
    assert forall|j: int| 0 <= j < start implies #[trigger] s[j] != '%' by {
        assert(s[j] == before[j]);
        assert(before.contains(before[j]));
    }
    text::lemma_find_at(s, '%', start);
    let after = s.skip(start + 1);
    let end = name.len() as int;
    assert forall|j: int| 0 <= j < end implies #[trigger] after[j] != '%' by {
        assert(after[j] == name[j]);
        assert(name.contains(name[j]));
    }
    assert(after[end] == '%');
    text::lemma_find_at(after, '%', end);
    assert(after.take(end) =~= name);
    assert(after.skip(end + 1) =~= rest);
    assert(s.take(start) =~= before);
}

}
