//! The one predicate an optional resource carries: "while option X has value
//! Y". Every resource kind asks the same question here, so a file, a
//! shortcut, a PATH entry, a registry value, an environment variable, an
//! integration, a firewall rule and a dependency are gated identically —
//! and a component is nothing more than an option that gates some of them.

use vstd::prelude::*;

use crate::metadata::{OptionValue, OptionView, Predicate};
use crate::text;

verus! {

/// One option and its effective value.
#[derive(Debug, PartialEq, Eq)]
pub struct OptionEntry {
    /// Lower-case name.
    pub name: String,
    pub value: OptionValue,
}

/// The effective value of every declared option, by lower-case name, in the
/// order of the names.
#[derive(Debug, PartialEq, Eq)]
pub struct Options {
    entries: Vec<OptionEntry>,
}

/// The map a list of entries stands for.
pub open spec fn map_of(entries: Seq<OptionEntry>) -> Map<Seq<char>, OptionView>
    decreases entries.len(),
{
    if entries.len() == 0 {
        Map::empty()
    } else {
        map_of(entries.drop_last()).insert(entries.last().name@, entries.last().value@)
    }
}

/// Whether the entries stand in the order of their names, no name twice.
pub open spec fn ordered(entries: Seq<OptionEntry>) -> bool {
    forall|i: int, j: int|
        0 <= i < j < entries.len() ==> text::precedes(
            #[trigger] entries[i].name@,
            #[trigger] entries[j].name@,
        ) && entries[i].name@ != entries[j].name@
}

/// What the map of ordered entries holds.
proof fn lemma_map_of(entries: Seq<OptionEntry>, name: Seq<char>)
    requires
        ordered(entries),
    ensures
        map_of(entries).dom().contains(name) <==> exists|i: int|
            0 <= i < entries.len() && #[trigger] entries[i].name@ == name,
        forall|i: int|
            0 <= i < entries.len() && (#[trigger] entries[i]).name@ == name ==> map_of(
                entries,
            )[name] == entries[i].value@,
    decreases entries.len(),
{
    if entries.len() > 0 {
        let init = entries.drop_last();
        assert forall|i: int, j: int| 0 <= i < j < init.len() implies text::precedes(
            #[trigger] init[i].name@,
            #[trigger] init[j].name@,
        ) && init[i].name@ != init[j].name@ by {
            assert(init[i] == entries[i] && init[j] == entries[j]);
        }
        lemma_map_of(init, name);
        if entries.last().name@ == name {
            assert(entries[entries.len() - 1].name@ == name);
            assert forall|i: int|
                0 <= i < entries.len() && (#[trigger] entries[i]).name@ == name implies map_of(
                entries,
            )[name] == entries[i].value@ by {
                if i < entries.len() - 1 {
                    assert(entries[i].name@ != entries[entries.len() - 1].name@);
                }
            }
        } else {
            assert forall|i: int|
                0 <= i < entries.len() && (#[trigger] entries[i]).name@ == name implies map_of(
                entries,
            )[name] == entries[i].value@ by {
                assert(init[i] == entries[i]);
            }
            if exists|i: int| 0 <= i < entries.len() && #[trigger] entries[i].name@ == name {
                let i = choose|i: int| 0 <= i < entries.len() && #[trigger] entries[i].name@ == name;
                assert(init[i].name@ == name);
            }
            if exists|i: int| 0 <= i < init.len() && #[trigger] init[i].name@ == name {
                let i = choose|i: int| 0 <= i < init.len() && #[trigger] init[i].name@ == name;
                assert(entries[i].name@ == name);
            }
        }
    }
}

impl View for Options {
    type V = Map<Seq<char>, OptionView>;

    closed spec fn view(&self) -> Map<Seq<char>, OptionView> {
        map_of(self.entries@)
    }
}

impl Options {
    /// The order of the names, kept by every operation.
    #[verifier::type_invariant]
    closed spec fn in_order(self) -> bool {
        ordered(self.entries@)
    }

    /// The entries, in the order of their names.
    pub closed spec fn listed(self) -> Seq<OptionEntry> {
        self.entries@
    }

    /// No options.
    pub fn new() -> (r: Options)
        ensures
            r@ == Map::<Seq<char>, OptionView>::empty(),
            r.listed().len() == 0,
    {
        Options { entries: Vec::new() }
    }

    /// The entries, in the order of their names: each name once, with the
    /// value it has.
    pub fn entries(&self) -> (r: &Vec<OptionEntry>)
        ensures
            r@ == self.listed(),
            ordered(r@),
            self@ == map_of(r@),
    {
        proof {
            use_type_invariant(self);
        }
        &self.entries
    }

    /// The value of an option.
    pub fn get(&self, name: &str) -> (r: Option<&OptionValue>)
        ensures
            text::option_view(r) == if self@.dom().contains(name@) {
                Some(self@[name@])
            } else {
                None
            },
    {
        proof {
            use_type_invariant(self);
            lemma_map_of(self.entries@, name@);
        }
        let mut i: usize = 0;
        while i < self.entries.len()
            invariant
                i <= self.entries@.len(),
                forall|j: int| 0 <= j < i ==> #[trigger] self.entries@[j].name@ != name@,
            decreases self.entries@.len() - i,
        {
            if text::same(self.entries[i].name.as_str(), name) {
                proof {
                    use_type_invariant(self);
                    lemma_map_of(self.entries@, name@);
                }
                return Some(&self.entries[i].value);
            }
            i = i + 1;
        }
        proof {
            use_type_invariant(self);
            lemma_map_of(self.entries@, name@);
        }
        None
    }

    /// Gives an option a value.
    pub fn insert(&mut self, name: &str, value: OptionValue)
        ensures
            final(self)@ == old(self)@.insert(name@, value@),
    {
        proof {
            use_type_invariant(&*self);
        }
        let mut entries: Vec<OptionEntry> = Vec::new();
        std::mem::swap(&mut entries, &mut self.entries);
        insert_entry(&mut entries, name, value);
        self.entries = entries;
    }
}

/// Whether `after` is `before` with the entry of `new`'s name set to `new`.
spec fn sets(before: Seq<OptionEntry>, after: Seq<OptionEntry>, new: OptionEntry) -> bool {
    &&& exists|i: int| 0 <= i < after.len() && #[trigger] after[i] == new
    &&& forall|i: int|
        0 <= i < before.len() && before[i].name@ != new.name@ ==> after.contains(
            #[trigger] before[i],
        )
    &&& forall|i: int|
        0 <= i < after.len() && after[i].name@ != new.name@ ==> before.contains(
            #[trigger] after[i],
        )
}

/// Setting one entry sets one value of the map.
proof fn lemma_sets(before: Seq<OptionEntry>, after: Seq<OptionEntry>, new: OptionEntry)
    requires
        ordered(before),
        ordered(after),
        sets(before, after, new),
    ensures
        map_of(after) == map_of(before).insert(new.name@, new.value@),
{
    let wanted = map_of(before).insert(new.name@, new.value@);
    assert forall|n: Seq<char>| map_of(after).dom().contains(n) <==> wanted.dom().contains(n) by {
        lemma_same_value(before, after, new, n);
    }
    assert forall|n: Seq<char>| wanted.dom().contains(n) implies #[trigger] map_of(after)[n]
        == wanted[n] by {
        lemma_same_value(before, after, new, n);
    }
    assert(map_of(after) =~= wanted);
}

proof fn lemma_same_value(
    before: Seq<OptionEntry>,
    after: Seq<OptionEntry>,
    new: OptionEntry,
    n: Seq<char>,
)
    requires
        ordered(before),
        ordered(after),
        sets(before, after, new),
    ensures
        ({
            let wanted = map_of(before).insert(new.name@, new.value@);
            &&& map_of(after).dom().contains(n) <==> wanted.dom().contains(n)
            &&& wanted.dom().contains(n) ==> map_of(after)[n] == wanted[n]
        }),
{
    lemma_map_of(before, n);
    lemma_map_of(after, n);
    if n == new.name@ {
        let i = choose|i: int| 0 <= i < after.len() && #[trigger] after[i] == new;
        assert(after[i].name@ == n);
    } else {
        if map_of(before).dom().contains(n) {
            let i = choose|i: int| 0 <= i < before.len() && #[trigger] before[i].name@ == n;
            assert(after.contains(before[i]));
            let j = choose|j: int| 0 <= j < after.len() && after[j] == before[i];
            assert(after[j].name@ == n);
        }
        if map_of(after).dom().contains(n) {
            let i = choose|i: int| 0 <= i < after.len() && #[trigger] after[i].name@ == n;
            assert(before.contains(after[i]));
            let j = choose|j: int| 0 <= j < before.len() && before[j] == after[i];
            assert(before[j].name@ == n);
        }
    }
}

/// Puts an entry where its name belongs, in place of one of that name.
fn insert_entry(entries: &mut Vec<OptionEntry>, name: &str, value: OptionValue)
    requires
        ordered(old(entries)@),
    ensures
        ordered(final(entries)@),
        map_of(final(entries)@) == map_of(old(entries)@).insert(name@, value@),
{
    let ghost before = entries@;
    let mut k: usize = 0;
    while k < entries.len() && text::precedes_of(entries[k].name.as_str(), name) && !text::same(
        entries[k].name.as_str(),
        name,
    )
        invariant
            k <= entries@.len(),
            entries@ == before,
            forall|j: int|
                0 <= j < k ==> text::precedes(#[trigger] before[j].name@, name@) && before[j].name@
                    != name@,
        decreases entries@.len() - k,
    {
        k = k + 1;
    }
    let there = k < entries.len() && text::same(entries[k].name.as_str(), name);
    let entry = OptionEntry { name: text::owned(name), value };
    let ghost new = entry;
    if there {
        entries.set(k, entry);
        proof {
            let after = entries@;
            assert forall|i: int, j: int| 0 <= i < j < after.len() implies text::precedes(
                #[trigger] after[i].name@,
                #[trigger] after[j].name@,
            ) && after[i].name@ != after[j].name@ by {
                assert(before[i].name@ == after[i].name@ && before[j].name@ == after[j].name@);
            }
            assert(after[k as int] == new);
            assert forall|i: int|
                0 <= i < before.len() && before[i].name@ != new.name@ implies after.contains(
                #[trigger] before[i],
            ) by {
                assert(after[i] == before[i]);
            }
            assert forall|i: int|
                0 <= i < after.len() && after[i].name@ != new.name@ implies before.contains(
                #[trigger] after[i],
            ) by {
                assert(after[i] == before[i]);
            }
            lemma_sets(before, after, new);
        }
    } else {
        entries.insert(k, entry);
        proof {
            let after = entries@;
            assert(after =~= before.insert(k as int, new));
            assert forall|j: int| k <= j < before.len() implies text::precedes(
                name@,
                #[trigger] before[j].name@,
            ) && before[j].name@ != name@ by {
                text::lemma_precedes_total(before[k as int].name@, name@);
                if j > k {
                    text::lemma_precedes_transitive(
                        name@,
                        before[k as int].name@,
                        before[j].name@,
                    );
                    if before[j].name@ == name@ {
                        text::lemma_precedes_antisymmetric(before[k as int].name@, name@);
                    }
                }
            }
            assert forall|i: int, j: int| 0 <= i < j < after.len() implies text::precedes(
                #[trigger] after[i].name@,
                #[trigger] after[j].name@,
            ) && after[i].name@ != after[j].name@ by {
                let a = if i < k { i } else { i - 1 };
                let b = if j < k { j } else { j - 1 };
                if i != k && j != k {
                    assert(after[i] == before[a] && after[j] == before[b]);
                } else if i == k {
                    assert(after[j] == before[j - 1]);
                } else {
                    assert(after[i] == before[i]);
                }
            }
            assert(after[k as int] == new);
            assert forall|i: int|
                0 <= i < before.len() && before[i].name@ != new.name@ implies after.contains(
                #[trigger] before[i],
            ) by {
                let at = if i < k { i } else { i + 1 };
                assert(after[at] == before[i]);
            }
            assert forall|i: int|
                0 <= i < after.len() && after[i].name@ != new.name@ implies before.contains(
                #[trigger] after[i],
            ) by {
                let at = if i < k { i } else { i - 1 };
                assert(before[at] == after[i]);
            }
            lemma_sets(before, after, new);
        }
    }
}

/// Whether a resource with this condition is part of the desired state. The
/// older spelling, an option's bare name, means "while it is on"; an explicit
/// predicate wins over it. An option the predicate names but the options do
/// not carry disables the resource, never enables it.
pub open spec fn wanted(
    when: Option<Predicate>,
    legacy_option: Seq<char>,
    options: Map<Seq<char>, OptionView>,
) -> bool {
    match when {
        Some(p) => holds(p.option@, p.equals@, options),
        None => legacy_option.len() == 0 || holds(legacy_option, "true"@, options),
    }
}

/// Whether an option currently has a value.
pub open spec fn holds(
    option: Seq<char>,
    equals: Seq<char>,
    options: Map<Seq<char>, OptionView>,
) -> bool {
    options.dom().contains(text::lower(option)) && options[text::lower(option)].text() == equals
}

/// Whether a resource is part of the desired state: it carries no predicate,
/// or the named option currently has the named value.
pub fn enabled(when: Option<&Predicate>, legacy_option: &str, options: &Options) -> (r: bool)
    ensures
        r == wanted(
            match when {
                Some(p) => Some(*p),
                None => None,
            },
            legacy_option@,
            options@,
        ),
{
    match when {
        Some(p) => has_value(p.option.as_str(), p.equals.as_str(), options),
        None => legacy_option.is_empty() || has_value(legacy_option, "true", options),
    }
}

fn has_value(option: &str, equals: &str, options: &Options) -> (r: bool)
    ensures
        r == holds(option@, equals@, options@),
{
    let name = text::lower_of(option);
    match options.get(name.as_str()) {
        Some(value) => {
            let shown = value.as_text();
            text::same(shown.as_str(), equals)
        },
        None => false,
    }
}

/// The value of an option is the one it was set to last.
pub proof fn lemma_an_option_has_what_it_was_set_to(entries: Seq<OptionEntry>, i: int)
    requires
        0 <= i < entries.len(),
        forall|j: int| i < j < entries.len() ==> (#[trigger] entries[j]).name@ != entries[i].name@,
    ensures
        map_of(entries).dom().contains(entries[i].name@),
        map_of(entries)[entries[i].name@] == entries[i].value@,
    decreases entries.len(),
{
    if i < entries.len() - 1 {
        let before = entries.drop_last();
        assert(before[i] == entries[i]);
        assert forall|j: int| i < j < before.len() implies (#[trigger] before[j]).name@
            != before[i].name@ by {
            assert(before[j] == entries[j]);
        }
        lemma_an_option_has_what_it_was_set_to(before, i);
        assert(entries[entries.len() - 1].name@ != entries[i].name@);
    }
}

/// An option has a value exactly when it was set.
pub proof fn lemma_only_set_options_have_values(entries: Seq<OptionEntry>, name: Seq<char>)
    ensures
        map_of(entries).dom().contains(name) <==> exists|i: int|
            0 <= i < entries.len() && (#[trigger] entries[i]).name@ == name,
    decreases entries.len(),
{
    if entries.len() > 0 {
        let before = entries.drop_last();
        let n = entries.len() - 1;
        lemma_only_set_options_have_values(before, name);
        if map_of(before).dom().contains(name) {
            let i = choose|i: int| 0 <= i < before.len() && (#[trigger] before[i]).name@ == name;
            assert(entries[i].name@ == name);
        }
        if entries[n].name@ == name {
            assert(map_of(entries).dom().contains(name));
        }
        if exists|i: int| 0 <= i < entries.len() && (#[trigger] entries[i]).name@ == name {
            let i = choose|i: int| 0 <= i < entries.len() && (#[trigger] entries[i]).name@ == name;
            if i < n {
                assert(before[i].name@ == name);
            }
        }
    }
}

}
