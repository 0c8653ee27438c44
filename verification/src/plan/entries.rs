//! PATH entries: added where no equivalent one stands, kept where one does,
//! and taken out where the engine put them in.

use vstd::prelude::*;

use crate::error::{Error, ErrorView};
use crate::lists;
use crate::machine;
use crate::machine::{KeyPath, KeyView, Machine};
use crate::plan::operation;
use crate::plan::operation::PlannedOperation;
use crate::plan::part;
use crate::plan::part::{Draft, PartView, Step};
use crate::report;
use crate::report::Finding;
use crate::resource::path;
use crate::state::installation::OwnedPathEntry;
use crate::state::journal::OpKind;
use crate::text;

verus! {

/// The PATH text of an environment key.
pub open spec fn path_at(key: KeyView, machine: Machine) -> Result<Seq<char>, ErrorView> {
    match path::path_text(machine.value(key, "Path"@)) {
        Some((text, _)) => Ok(text),
        None => Err(path::unreadable(key, machine.value(key, "Path"@)->Some_0)),
    }
}

/// The PATH text of an environment key.
pub fn read_path(key: &KeyPath, machine: &Machine) -> (r: Result<String, Error>)
    ensures
        match (r, path_at(key@, *machine)) {
            (Ok(a), Ok(b)) => a@ == b,
            (Err(a), Err(b)) => a@ == b,
            _ => false,
        },
{
    match path::read(machine.read_value(key, "Path"), key) {
        Ok((text, _)) => Ok(text),
        Err(e) => Err(e),
    }
}

/// Holds of the entry on record for a normalized text.
pub open spec fn is_recorded(key: KeyView, normalized: Seq<char>) -> spec_fn(
    OwnedPathEntry,
) -> bool {
    |e: OwnedPathEntry|
        text::lower(e.hive_key@) == text::lower(key.text()) && e.normalized@ == normalized
}

fn find_recorded<'a>(owned: &'a Vec<OwnedPathEntry>, key: &KeyPath, normalized: &str) -> (r: Option<
    &'a OwnedPathEntry,
>)
    ensures
        match r {
            Some(e) => lists::first(owned@, is_recorded(key@, normalized@)) == Some(*e),
            None => lists::first(owned@, is_recorded(key@, normalized@)) is None,
        },
{
    let ghost p = is_recorded(key@, normalized@);
    let own = key.to_string();
    let mut i: usize = 0;
    while i < owned.len()
        invariant
            i <= owned@.len(),
            p == is_recorded(key@, normalized@),
            own@ == key@.text(),
            forall|j: int| 0 <= j < i ==> !p(#[trigger] owned@[j]),
        decreases owned@.len() - i,
    {
        if text::same_folded(owned[i].hive_key.as_str(), own.as_str()) && text::same(
            owned[i].normalized.as_str(),
            normalized,
        ) {
            proof {
                lists::lemma_first_at(owned@, p, i as int);
            }
            return Some(&owned[i]);
        }
        i = i + 1;
    }
    proof {
        lists::lemma_first_none(owned@, p);
    }
    None
}

/// The step for one entry the package wants. An entry that stood there before
/// is kept and never claimed; one the engine put in is kept while an
/// equivalent one stands, and added again where none does.
pub open spec fn wanted_step(
    raw: Seq<char>,
    owned: Seq<OwnedPathEntry>,
    key: KeyView,
    current: Seq<char>,
    machine: Machine,
) -> Step {
    let normalized = path::normal(raw, machine);
    let present = path::present(current, normalized, machine);
    Ok(
        part::forward(
            match lists::first(owned, is_recorded(key, normalized)) {
                Some(entry) => if entry.pre_existed {
                    operation::path_entry(OpKind::KeepPathEntry, key, entry.raw@, Some(true))
                } else if present {
                    operation::path_entry(OpKind::KeepPathEntry, key, entry.raw@, Some(false))
                } else {
                    operation::path_entry(OpKind::AddPathEntry, key, raw, None)
                },
                None => if present {
                    operation::path_entry(OpKind::KeepPathEntry, key, raw, Some(true))
                } else {
                    operation::path_entry(OpKind::AddPathEntry, key, raw, None)
                },
            },
        ),
    )
}

fn plan_wanted(
    raw: &str,
    owned: &Vec<OwnedPathEntry>,
    key: &KeyPath,
    current: &str,
    machine: &Machine,
) -> (r: Result<Draft, Error>)
    ensures
        part::agrees(r, wanted_step(raw@, owned@, key@, current@, *machine)),
{
    let normalized = path::normalize(raw, machine);
    let present = path::contains_equivalent(current, normalized.as_str(), machine);
    let op = match find_recorded(owned, key, normalized.as_str()) {
        Some(entry) => {
            if entry.pre_existed {
                PlannedOperation::path_entry(
                    OpKind::KeepPathEntry,
                    key,
                    entry.raw.as_str(),
                    Some(true),
                )
            } else if present {
                PlannedOperation::path_entry(
                    OpKind::KeepPathEntry,
                    key,
                    entry.raw.as_str(),
                    Some(false),
                )
            } else {
                PlannedOperation::path_entry(OpKind::AddPathEntry, key, raw, None)
            }
        },
        None => {
            if present {
                PlannedOperation::path_entry(OpKind::KeepPathEntry, key, raw, Some(true))
            } else {
                PlannedOperation::path_entry(OpKind::AddPathEntry, key, raw, None)
            }
        },
    };
    Ok(Draft::forward(op))
}

/// Holds of the wanted entries equivalent to a normalized text.
pub open spec fn is_equivalent(normalized: Seq<char>, machine: Machine) -> spec_fn(
    Seq<char>,
) -> bool {
    |raw: Seq<char>| path::normal(raw, machine) == normalized
}

fn is_wanted(wanted: &Vec<String>, normalized: &str, machine: &Machine) -> (r: bool)
    ensures
        r == (lists::first(text::views(wanted@), is_equivalent(normalized@, *machine)) is Some),
{
    let ghost all = text::views(wanted@);
    let ghost p = is_equivalent(normalized@, *machine);
    let mut i: usize = 0;
    while i < wanted.len()
        invariant
            i <= wanted@.len(),
            all == text::views(wanted@),
            p == is_equivalent(normalized@, *machine),
            forall|j: int| 0 <= j < i ==> !p(#[trigger] all[j]),
        decreases wanted@.len() - i,
    {
        assert(all[i as int] == wanted@[i as int]@);
        let own = path::normalize(wanted[i].as_str(), machine);
        if text::same(own.as_str(), normalized) {
            proof {
                lists::lemma_first_at(all, p, i as int);
            }
            return true;
        }
        i = i + 1;
    }
    proof {
        lists::lemma_first_none(all, p);
    }
    false
}

/// The step for one entry on record: where the package no longer wants it
/// and the engine added it, it is taken out when it still stands there, and
/// reported otherwise. A record whose key does not read is passed over.
pub open spec fn owned_step(entry: OwnedPathEntry, wanted: Seq<Seq<char>>, machine: Machine) -> Step {
    if lists::first(wanted, is_equivalent(entry.normalized@, machine)) is Some || !entry.added {
        Ok(part::nothing())
    } else {
        match machine::parsed_key(entry.hive_key@) {
            None => Ok(part::nothing()),
            Some(key) => match path_at(key, machine) {
                Err(e) => Err(e),
                Ok(text) => Ok(
                    if path::owned_index(text, entry.raw@, entry.normalized@, machine) is Some {
                        part::removal(
                            operation::path_entry(OpKind::RemovePathEntry, key, entry.raw@, None),
                        )
                    } else {
                        part::finds(
                            report::finding(
                                "path_entry_missing"@,
                                key.text() + "\\Path "@ + entry.raw@,
                            ),
                        )
                    },
                ),
            },
        }
    }
}

fn plan_owned(entry: &OwnedPathEntry, wanted: &Vec<String>, machine: &Machine) -> (r: Result<
    Draft,
    Error,
>)
    ensures
        part::agrees(r, owned_step(*entry, text::views(wanted@), *machine)),
{
    if is_wanted(wanted, entry.normalized.as_str(), machine) || !entry.added {
        return Ok(Draft::new());
    }
    let key = match KeyPath::parse(entry.hive_key.as_str()) {
        Ok(key) => key,
        Err(_) => {
            return Ok(Draft::new());
        },
    };
    match read_path(&key, machine) {
        Err(e) => Err(e),
        Ok(text) => {
            let at = path::find_owned(
                text.as_str(),
                entry.raw.as_str(),
                entry.normalized.as_str(),
                machine,
            );
            if at.is_some() {
                Ok(
                    Draft::removal(
                        PlannedOperation::path_entry(
                            OpKind::RemovePathEntry,
                            &key,
                            entry.raw.as_str(),
                            None,
                        ),
                    ),
                )
            } else {
                let name = key.to_string();
                let place = text::cat3(name.as_str(), "\\Path ", entry.raw.as_str());
                Ok(Draft::finds(Finding::named("path_entry_missing", place.as_str())))
            }
        },
    }
}

/// The steps for the entries the package wants.
pub open spec fn wanted_steps(
    wanted: Seq<Seq<char>>,
    owned: Seq<OwnedPathEntry>,
    key: KeyView,
    current: Seq<char>,
    machine: Machine,
) -> Seq<Step> {
    wanted.map_values(|raw: Seq<char>| wanted_step(raw, owned, key, current, machine))
}

/// The steps for the entries on record.
pub open spec fn owned_steps(
    owned: Seq<OwnedPathEntry>,
    wanted: Seq<Seq<char>>,
    machine: Machine,
) -> Seq<Step> {
    owned.map_values(|e: OwnedPathEntry| owned_step(e, wanted, machine))
}

/// What the PATH entries add to a plan.
pub open spec fn section(
    wanted: Seq<Seq<char>>,
    owned: Seq<OwnedPathEntry>,
    key: KeyView,
    machine: Machine,
) -> Step {
    match path_at(key, machine) {
        Err(e) => Err(e),
        Ok(current) => part::both(
            part::gather(wanted_steps(wanted, owned, key, current, machine)),
            part::gather(owned_steps(owned, wanted, machine)),
        ),
    }
}

/// Keeps, adds or takes out PATH entries.
pub fn reconcile_path(
    wanted: &Vec<String>,
    owned: &Vec<OwnedPathEntry>,
    environment_key: &KeyPath,
    machine: &Machine,
) -> (r: Result<Draft, Error>)
    ensures
        part::agrees(r, section(text::views(wanted@), owned@, environment_key@, *machine)),
{
    let current = match read_path(environment_key, machine) {
        Ok(current) => current,
        Err(e) => {
            return Err(e);
        },
    };
    let ghost w = text::views(wanted@);
    let ghost first = wanted_steps(w, owned@, environment_key@, current@, *machine);
    let ghost second = owned_steps(owned@, w, *machine);
    let mut draft = Draft::new();
    let mut i: usize = 0;
    assert(first.take(0) =~= Seq::<Step>::empty());
    while i < wanted.len()
        invariant
            i <= wanted@.len(),
            first.len() == wanted@.len(),
            w == text::views(wanted@),
            path_at(environment_key@, *machine) == Ok::<Seq<char>, ErrorView>(current@),
            first == wanted_steps(w, owned@, environment_key@, current@, *machine),
            part::gather(first.take(i as int)) == Ok::<PartView, ErrorView>(draft@),
        decreases wanted@.len() - i,
    {
        proof {
            part::lemma_gather_take(first, i as int);
            assert(w[i as int] == wanted@[i as int]@);
        }
        match plan_wanted(wanted[i].as_str(), owned, environment_key, current.as_str(), machine) {
            Err(e) => {
                proof {
                    part::lemma_gather_fails(first, i + 1);
                }
                return Err(e);
            },
            Ok(more) => {
                draft.absorb(more);
            },
        }
        i = i + 1;
    }
    assert(first.take(i as int) =~= first);
    let ghost done = draft@;
    let mut i: usize = 0;
    assert(second.take(0) =~= Seq::<Step>::empty());
    assert(done.plus(part::nothing()) =~= done);
    while i < owned.len()
        invariant
            i <= owned@.len(),
            second.len() == owned@.len(),
            w == text::views(wanted@),
            path_at(environment_key@, *machine) == Ok::<Seq<char>, ErrorView>(current@),
            first == wanted_steps(w, owned@, environment_key@, current@, *machine),
            part::gather(first) == Ok::<PartView, ErrorView>(done),
            second == owned_steps(owned@, w, *machine),
            part::gather(second.take(i as int)) is Ok,
            draft@ == done.plus(part::gather(second.take(i as int))->Ok_0),
        decreases owned@.len() - i,
    {
        proof {
            part::lemma_gather_take(second, i as int);
        }
        let ghost before = part::gather(second.take(i as int))->Ok_0;
        match plan_owned(&owned[i], wanted, machine) {
            Err(e) => {
                proof {
                    part::lemma_gather_fails(second, i + 1);
                }
                return Err(e);
            },
            Ok(more) => {
                assert(done.plus(before).plus(more@) =~= done.plus(before.plus(more@)));
                draft.absorb(more);
            },
        }
        i = i + 1;
    }
    assert(second.take(i as int) =~= second);
    Ok(draft)
}

}
