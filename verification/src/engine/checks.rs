//! What a read-only check of an installation compares: every owned resource
//! with what the machine holds. It reports what it observes —
//! `<resource>_missing` and `<resource>_modified` — and leaves every decision
//! about what to do to a mutating run.

use vstd::prelude::*;

use crate::action::launch;
use crate::error::{Error, ErrorView};
use crate::lists;
use crate::machine;
use crate::machine::{DataView, KeyPath, LinkInspection, Machine};
use crate::plan::target;
use crate::report::{finding, Finding, FindingView};
use crate::resource::environment;
use crate::resource::firewall;
use crate::resource::path;
use crate::resource::registry;
use crate::resource::shortcut;
use crate::state::installation::{
    OwnedAction, OwnedDirectory, OwnedEnvironmentVariable, OwnedFile, OwnedFirewallRule,
    OwnedPathEntry, OwnedRegistryValue, OwnedShortcut,
};
use crate::text;

verus! {

/// What checking one owned resource came to.
#[derive(Debug)]
pub enum Checked {
    /// It is not one that is checked.
    Skipped,
    /// It is there as recorded.
    Fine,
    /// It is not.
    Wrong(Finding),
}

/// What a [`Checked`] says.
#[verifier::ext_equal]
pub enum Mark {
    Skipped,
    Fine,
    Wrong(FindingView),
}

impl View for Checked {
    type V = Mark;

    open spec fn view(&self) -> Mark {
        match *self {
            Checked::Skipped => Mark::Skipped,
            Checked::Fine => Mark::Fine,
            Checked::Wrong(f) => Mark::Wrong(f@),
        }
    }
}

/// How many resources were checked.
pub open spec fn checked(marks: Seq<Mark>) -> nat
    decreases marks.len(),
{
    if marks.len() == 0 {
        0
    } else {
        checked(marks.drop_last()) + if marks.last() is Skipped {
            0nat
        } else {
            1nat
        }
    }
}

/// How many are there as recorded.
pub open spec fn fine(marks: Seq<Mark>) -> nat
    decreases marks.len(),
{
    if marks.len() == 0 {
        0
    } else {
        fine(marks.drop_last()) + if marks.last() is Fine {
            1nat
        } else {
            0nat
        }
    }
}

/// What was found wrong, in order.
pub open spec fn wrong(marks: Seq<Mark>) -> Seq<FindingView>
    decreases marks.len(),
{
    if marks.len() == 0 {
        Seq::empty()
    } else {
        match marks.last() {
            Mark::Wrong(f) => wrong(marks.drop_last()).push(f),
            _ => wrong(marks.drop_last()),
        }
    }
}

/// Whether a result is what a specification says.
pub open spec fn agrees(r: Result<Checked, Error>, s: Result<Mark, ErrorView>) -> bool {
    match (r, s) {
        (Ok(a), Ok(b)) => a@ == b,
        (Err(a), Err(b)) => a@ == b,
        _ => false,
    }
}

/// Whether a list of results is what a specification says.
pub open spec fn all_agree(r: Result<Vec<Checked>, Error>, s: Result<Seq<Mark>, ErrorView>) -> bool {
    match (r, s) {
        (Ok(a), Ok(b)) => text::views(a@) == b,
        (Err(a), Err(b)) => a@ == b,
        _ => false,
    }
}

/// How many of one kind were checked and are there as recorded: `kinds` says
/// of each whether it is of that kind.
pub open spec fn of_kind(marks: Seq<Mark>, kinds: Seq<bool>, kind: bool) -> Seq<Mark>
    decreases marks.len(),
{
    if marks.len() == 0 || kinds.len() == 0 {
        Seq::empty()
    } else {
        let before = of_kind(marks.drop_last(), kinds.drop_last(), kind);
        if kinds.last() == kind {
            before.push(marks.last())
        } else {
            before
        }
    }
}

/// Counts what was checked and what is fine, and appends what is wrong.
pub fn tally(marks: Vec<Checked>, findings: &mut Vec<Finding>) -> (r: (u64, u64))
    ensures
        r.0 == checked(text::views(marks@)),
        r.1 == fine(text::views(marks@)),
        text::views(final(findings)@) == text::views(old(findings)@) + wrong(text::views(marks@)),
{
    let ghost all = text::views(marks@);
    let ghost had = text::views(findings@);
    let mut seen: u64 = 0;
    let mut good: u64 = 0;
    let mut i: usize = 0;
    assert(had + wrong(all.take(0)) =~= had);
    while i < marks.len()
        invariant
            i <= marks@.len(),
            all == text::views(marks@),
            seen == checked(all.take(i as int)),
            good == fine(all.take(i as int)),
            seen <= i,
            good <= i,
            text::views(findings@) == had + wrong(all.take(i as int)),
        decreases marks@.len() - i,
    {
        proof {
            assert(all.take(i + 1).drop_last() =~= all.take(i as int));
            assert(all.take(i + 1).last() == marks@[i as int]@);
        }
        match &marks[i] {
            Checked::Skipped => {},
            Checked::Fine => {
                seen = seen + 1;
                good = good + 1;
            },
            Checked::Wrong(f) => {
                seen = seen + 1;
                let copy = f.copy();
                proof {
                    text::lemma_views_push(findings@, copy);
                }
                findings.push(copy);
            },
        }
        assert(text::views(findings@) =~= had + wrong(all.take(i + 1)));
        i = i + 1;
    }
    assert(all.take(i as int) =~= all);
    (seen, good)
}

/// Counts what was checked and what is fine of one kind.
pub fn tally_kind(marks: &Vec<Checked>, kinds: &Vec<bool>, kind: bool) -> (r: (u64, u64))
    requires
        marks@.len() == kinds@.len(),
    ensures
        r.0 == checked(of_kind(text::views(marks@), kinds@, kind)),
        r.1 == fine(of_kind(text::views(marks@), kinds@, kind)),
{
    let ghost all = text::views(marks@);
    let mut seen: u64 = 0;
    let mut good: u64 = 0;
    let mut i: usize = 0;
    while i < marks.len()
        invariant
            i <= marks@.len(),
            marks@.len() == kinds@.len(),
            all == text::views(marks@),
            seen == checked(of_kind(all.take(i as int), kinds@.take(i as int), kind)),
            good == fine(of_kind(all.take(i as int), kinds@.take(i as int), kind)),
            seen <= i,
            good <= i,
        decreases marks@.len() - i,
    {
        proof {
            assert(all.take(i + 1).drop_last() =~= all.take(i as int));
            assert(kinds@.take(i + 1).drop_last() =~= kinds@.take(i as int));
            assert(all.take(i + 1).last() == marks@[i as int]@);
            let before = of_kind(all.take(i as int), kinds@.take(i as int), kind);
            assert(before.push(marks@[i as int]@).drop_last() =~= before);
        }
        if kinds[i] == kind {
            match &marks[i] {
                Checked::Skipped => {},
                Checked::Fine => {
                    seen = seen + 1;
                    good = good + 1;
                },
                Checked::Wrong(_) => {
                    seen = seen + 1;
                },
            }
        }
        i = i + 1;
    }
    assert(all.take(i as int) =~= all);
    assert(kinds@.take(i as int) =~= kinds@);
    (seen, good)
}

/// A finding about a stored path that does not lie under the install root.
pub open spec fn outside(path: Seq<char>, why: Seq<char>) -> FindingView {
    FindingView { code: "path_outside_root"@, path: Some(path), detail: Some(why) }
}

fn outside_of(path: &str, why: Error) -> (r: Checked)
    ensures
        r@ == Mark::Wrong(outside(path@, why@.message)),
{
    Checked::Wrong(
        Finding {
            code: "path_outside_root",
            path: Some(text::owned(path)),
            detail: Some(why.message),
        },
    )
}

/// What a file on the machine comes to against a recorded hash.
pub open spec fn held(
    machine: Machine,
    path: Seq<char>,
    sha256: Seq<char>,
    missing: Seq<char>,
    modified: Seq<char>,
) -> Mark {
    match machine.file(path) {
        None => Mark::Wrong(finding(missing, path)),
        Some(f) => if f.sha256@ != sha256 {
            Mark::Wrong(finding(modified, path))
        } else {
            Mark::Fine
        },
    }
}

fn hold(
    machine: &Machine,
    path: &str,
    sha256: &str,
    missing: &'static str,
    modified: &'static str,
) -> (r: Checked)
    ensures
        r@ == held(*machine, path@, sha256@, missing@, modified@),
{
    match machine.inspect_file(path) {
        None => Checked::Wrong(Finding::at(missing, path)),
        Some(f) => if !text::same(f.sha256.as_str(), sha256) {
            Checked::Wrong(Finding::at(modified, path))
        } else {
            Checked::Fine
        },
    }
}

/// What a registry value on the machine comes to against recorded data.
pub open spec fn valued(
    machine: Machine,
    key: Seq<char>,
    name: Seq<char>,
    recorded: Result<DataView, ErrorView>,
    missing: Seq<char>,
    modified: Seq<char>,
) -> Result<Mark, ErrorView> {
    let place = registry::located(key, name);
    match machine::parsed_key(key) {
        None => Ok(Mark::Wrong(finding(missing, place))),
        Some(parsed) => match recorded {
            Err(e) => Err(e),
            Ok(data) => match machine.value(parsed, name) {
                None => Ok(Mark::Wrong(finding(missing, place))),
                Some(current) => if current == data {
                    Ok(Mark::Fine)
                } else {
                    Ok(Mark::Wrong(finding(modified, place)))
                },
            },
        },
    }
}

fn value(
    machine: &Machine,
    key: &str,
    name: &str,
    recorded: Result<machine::Data, Error>,
    missing: &'static str,
    modified: &'static str,
) -> (r: Result<Checked, Error>)
    ensures
        forall|s: Result<DataView, ErrorView>| #[trigger]
            registry::data_agrees(recorded, s) ==> agrees(
                r,
                valued(*machine, key@, name@, s, missing@, modified@),
            ),
{
    let place = registry::location(key, name);
    match KeyPath::parse(key) {
        Err(_) => Ok(Checked::Wrong(Finding::named(missing, place.as_str()))),
        Ok(parsed) => {
            let data = recorded?;
            match machine.read_value(&parsed, name) {
                None => Ok(Checked::Wrong(Finding::named(missing, place.as_str()))),
                Some(current) => if current.same(&data) {
                    Ok(Checked::Fine)
                } else {
                    Ok(Checked::Wrong(Finding::named(modified, place.as_str())))
                },
            }
        },
    }
}

/// An owned file.
pub open spec fn file_mark(root: Seq<char>, machine: Machine) -> spec_fn(OwnedFile) -> Result<Mark, ErrorView> {
    |f: OwnedFile|
        match target::placed_at(root, f.path@) {
            Err(e) => Ok(Mark::Wrong(outside(f.path@, e.message))),
            Ok(at) => Ok(held(machine, at, f.sha256@, "file_missing"@, "file_modified"@)),
        }
}

/// An owned file.
pub fn check_file(f: &OwnedFile, root: &str, machine: &Machine) -> (r: Result<Checked, Error>)
    ensures
        agrees(r, file_mark(root@, *machine)(*f)),
{
    match target::absolute(root, f.path.as_str()) {
        Err(e) => Ok(outside_of(f.path.as_str(), e)),
        Ok(at) => Ok(
            hold(machine, at.as_str(), f.sha256.as_str(), "file_missing", "file_modified"),
        ),
    }
}

/// Checks every one, in order.
pub fn check_files(all: &Vec<OwnedFile>, root: &str, machine: &Machine) -> (r: Result<Vec<Checked>, Error>)
    ensures
        all_agree(r, lists::all(all@.map_values(file_mark(root@, *machine)))),
{
    let ghost steps = all@.map_values(file_mark(root@, *machine));
    let mut out: Vec<Checked> = Vec::new();
    let mut i: usize = 0;
    assert(steps.take(0) =~= Seq::<Result<Mark, ErrorView>>::empty());
    assert(text::views(out@) =~= Seq::<Mark>::empty());
    while i < all.len()
        invariant
            i <= all@.len(),
            steps == all@.map_values(file_mark(root@, *machine)),
            lists::all(steps.take(i as int)) == Ok::<Seq<Mark>, ErrorView>(text::views(out@)),
        decreases all@.len() - i,
    {
        proof {
            lists::lemma_all_take(steps, i as int);
        }
        match check_file(&all[i], root, machine) {
            Ok(mark) => {
                proof {
                    text::lemma_views_push(out@, mark);
                }
                out.push(mark);
            },
            Err(e) => {
                proof {
                    lists::lemma_all_fails(steps, i + 1);
                }
                return Err(e);
            },
        }
        i = i + 1;
    }
    assert(steps.take(i as int) =~= steps);
    Ok(out)
}

/// An owned directory.
pub open spec fn directory_mark(root: Seq<char>, machine: Machine) -> spec_fn(OwnedDirectory) -> Result<Mark, ErrorView> {
    |d: OwnedDirectory|
        match target::placed_at(root, d.path@) {
            Err(e) => Ok(Mark::Wrong(outside(d.path@, e.message))),
            Ok(at) => if machine.has_directory(at) {
                Ok(Mark::Fine)
            } else {
                Ok(Mark::Wrong(finding("directory_missing"@, at)))
            },
        }
}

/// An owned directory.
pub fn check_directory(d: &OwnedDirectory, root: &str, machine: &Machine) -> (r: Result<Checked, Error>)
    ensures
        agrees(r, directory_mark(root@, *machine)(*d)),
{
    match target::absolute(root, d.path.as_str()) {
        Err(e) => Ok(outside_of(d.path.as_str(), e)),
        Ok(at) => if machine.directory_exists(at.as_str()) {
            Ok(Checked::Fine)
        } else {
            Ok(Checked::Wrong(Finding::at("directory_missing", at.as_str())))
        },
    }
}

/// Checks every one, in order.
pub fn check_directories(all: &Vec<OwnedDirectory>, root: &str, machine: &Machine) -> (r: Result<Vec<Checked>, Error>)
    ensures
        all_agree(r, lists::all(all@.map_values(directory_mark(root@, *machine)))),
{
    let ghost steps = all@.map_values(directory_mark(root@, *machine));
    let mut out: Vec<Checked> = Vec::new();
    let mut i: usize = 0;
    assert(steps.take(0) =~= Seq::<Result<Mark, ErrorView>>::empty());
    assert(text::views(out@) =~= Seq::<Mark>::empty());
    while i < all.len()
        invariant
            i <= all@.len(),
            steps == all@.map_values(directory_mark(root@, *machine)),
            lists::all(steps.take(i as int)) == Ok::<Seq<Mark>, ErrorView>(text::views(out@)),
        decreases all@.len() - i,
    {
        proof {
            lists::lemma_all_take(steps, i as int);
        }
        match check_directory(&all[i], root, machine) {
            Ok(mark) => {
                proof {
                    text::lemma_views_push(out@, mark);
                }
                out.push(mark);
            },
            Err(e) => {
                proof {
                    lists::lemma_all_fails(steps, i + 1);
                }
                return Err(e);
            },
        }
        i = i + 1;
    }
    assert(steps.take(i as int) =~= steps);
    Ok(out)
}

/// An owned registry value: one of the Add/Remove Programs key is a
/// registration value.
pub open spec fn value_mark(registration_key: Option<Seq<char>>, machine: Machine) -> spec_fn(OwnedRegistryValue) -> Result<Mark, ErrorView> {
    |v: OwnedRegistryValue|
        {
            let registration = registry::registers(v.key@, registration_key);
            valued(
                machine,
                v.key@,
                v.name@,
                registry::recorded(v.kind@, v.data@),
                if registration {
                    "registration_missing"@
                } else {
                    "registry_value_missing"@
                },
                if registration {
                    "registration_modified"@
                } else {
                    "registry_value_modified"@
                },
            )
        }
}

/// An owned registry value: one of the Add/Remove Programs key is a
/// registration value.
pub fn check_value(v: &OwnedRegistryValue, registration_key: Option<&str>, machine: &Machine) -> (r: Result<Checked, Error>)
    ensures
        agrees(r, value_mark(text::option_view(registration_key), *machine)(*v)),
{
    let registration = registry::is_registration_key(v.key.as_str(), registration_key);
    let (missing, modified) = if registration {
        ("registration_missing", "registration_modified")
    } else {
        ("registry_value_missing", "registry_value_modified")
    };
    let recorded = registry::owned_data(v);
    let ghost said = registry::recorded(v.kind@, v.data@);
    assert(registry::data_agrees(recorded, said));
    value(machine, v.key.as_str(), v.name.as_str(), recorded, missing, modified)
}

/// Checks every one, in order.
pub fn check_values(all: &Vec<OwnedRegistryValue>, registration_key: Option<&str>, machine: &Machine) -> (r: Result<Vec<Checked>, Error>)
    ensures
        all_agree(r, lists::all(all@.map_values(value_mark(text::option_view(registration_key), *machine)))),
{
    let ghost steps = all@.map_values(value_mark(text::option_view(registration_key), *machine));
    let mut out: Vec<Checked> = Vec::new();
    let mut i: usize = 0;
    assert(steps.take(0) =~= Seq::<Result<Mark, ErrorView>>::empty());
    assert(text::views(out@) =~= Seq::<Mark>::empty());
    while i < all.len()
        invariant
            i <= all@.len(),
            steps == all@.map_values(value_mark(text::option_view(registration_key), *machine)),
            lists::all(steps.take(i as int)) == Ok::<Seq<Mark>, ErrorView>(text::views(out@)),
        decreases all@.len() - i,
    {
        proof {
            lists::lemma_all_take(steps, i as int);
        }
        match check_value(&all[i], registration_key, machine) {
            Ok(mark) => {
                proof {
                    text::lemma_views_push(out@, mark);
                }
                out.push(mark);
            },
            Err(e) => {
                proof {
                    lists::lemma_all_fails(steps, i + 1);
                }
                return Err(e);
            },
        }
        i = i + 1;
    }
    assert(steps.take(i as int) =~= steps);
    Ok(out)
}

/// The place a PATH entry is named by.
pub open spec fn entry_place(e: OwnedPathEntry) -> Seq<char> {
    e.hive_key@ + "\\"@ + "Path"@ + " "@ + e.raw@
}

/// An owned PATH entry: one that was there before is not checked.
pub open spec fn entry_mark(machine: Machine) -> spec_fn(OwnedPathEntry) -> Result<Mark, ErrorView> {
    |e: OwnedPathEntry|
        if !e.added {
            Ok(Mark::Skipped)
        } else {
            let place = entry_place(e);
            match machine::parsed_key(e.hive_key@) {
                None => Ok(Mark::Wrong(finding("path_entry_missing"@, place))),
                Some(key) => {
                    let current = machine.value(key, "Path"@);
                    match path::path_text(current) {
                        None => Err(path::unreadable(key, current->Some_0)),
                        Some((path, _)) => if path::owned_index(
                            path,
                            e.raw@,
                            e.normalized@,
                            machine,
                        ) is Some {
                            Ok(Mark::Fine)
                        } else {
                            Ok(Mark::Wrong(finding("path_entry_missing"@, place)))
                        },
                    }
                },
            }
        }
}

/// An owned PATH entry: one that was there before is not checked.
pub fn check_entry(e: &OwnedPathEntry, machine: &Machine) -> (r: Result<Checked, Error>)
    ensures
        agrees(r, entry_mark(*machine)(*e)),
{
    if !e.added {
        return Ok(Checked::Skipped);
    }
    let place = text::cat5(
        e.hive_key.as_str(),
        "\\",
        path::VALUE_NAME,
        " ",
        e.raw.as_str(),
    );
    match KeyPath::parse(e.hive_key.as_str()) {
        Err(_) => Ok(Checked::Wrong(Finding::named("path_entry_missing", place.as_str()))),
        Ok(key) => {
            let (current, _) = path::read(machine.read_value(&key, path::VALUE_NAME), &key)?;
            match path::find_owned(
                current.as_str(),
                e.raw.as_str(),
                e.normalized.as_str(),
                machine,
            ) {
                Some(_) => Ok(Checked::Fine),
                None => Ok(Checked::Wrong(Finding::named("path_entry_missing", place.as_str()))),
            }
        },
    }
}

/// Checks every one, in order.
pub fn check_entries(all: &Vec<OwnedPathEntry>, machine: &Machine) -> (r: Result<Vec<Checked>, Error>)
    ensures
        all_agree(r, lists::all(all@.map_values(entry_mark(*machine)))),
{
    let ghost steps = all@.map_values(entry_mark(*machine));
    let mut out: Vec<Checked> = Vec::new();
    let mut i: usize = 0;
    assert(steps.take(0) =~= Seq::<Result<Mark, ErrorView>>::empty());
    assert(text::views(out@) =~= Seq::<Mark>::empty());
    while i < all.len()
        invariant
            i <= all@.len(),
            steps == all@.map_values(entry_mark(*machine)),
            lists::all(steps.take(i as int)) == Ok::<Seq<Mark>, ErrorView>(text::views(out@)),
        decreases all@.len() - i,
    {
        proof {
            lists::lemma_all_take(steps, i as int);
        }
        match check_entry(&all[i], machine) {
            Ok(mark) => {
                proof {
                    text::lemma_views_push(out@, mark);
                }
                out.push(mark);
            },
            Err(e) => {
                proof {
                    lists::lemma_all_fails(steps, i + 1);
                }
                return Err(e);
            },
        }
        i = i + 1;
    }
    assert(steps.take(i as int) =~= steps);
    Ok(out)
}

/// An owned shortcut.
pub open spec fn shortcut_mark(machine: Machine) -> spec_fn(OwnedShortcut) -> Result<Mark, ErrorView> {
    |s: OwnedShortcut|
        if !shortcut::is_link_path(s.path@) {
            Err(shortcut::not_a_link(s.path@))
        } else {
            match machine.link(s.path@) {
                LinkInspection::Absent => Ok(Mark::Wrong(finding("shortcut_missing"@, s.path@))),
                LinkInspection::Link(current) => if text::lower(current.target@) == text::lower(
                    s.target@,
                ) {
                    Ok(Mark::Fine)
                } else {
                    Ok(Mark::Wrong(finding("shortcut_modified"@, s.path@)))
                },
                _ => Ok(Mark::Wrong(finding("shortcut_modified"@, s.path@))),
            }
        }
}

/// An owned shortcut.
pub fn check_shortcut(s: &OwnedShortcut, machine: &Machine) -> (r: Result<Checked, Error>)
    ensures
        agrees(r, shortcut_mark(*machine)(*s)),
{
    let path = shortcut::link_path(s.path.as_str())?;
    match machine.inspect_link(path.as_str()) {
        LinkInspection::Absent => Ok(
            Checked::Wrong(Finding::at("shortcut_missing", path.as_str())),
        ),
        LinkInspection::Link(current) => if text::same_folded(
            current.target.as_str(),
            s.target.as_str(),
        ) {
            Ok(Checked::Fine)
        } else {
            Ok(Checked::Wrong(Finding::at("shortcut_modified", path.as_str())))
        },
        _ => Ok(Checked::Wrong(Finding::at("shortcut_modified", path.as_str()))),
    }
}

/// Checks every one, in order.
pub fn check_shortcuts(all: &Vec<OwnedShortcut>, machine: &Machine) -> (r: Result<Vec<Checked>, Error>)
    ensures
        all_agree(r, lists::all(all@.map_values(shortcut_mark(*machine)))),
{
    let ghost steps = all@.map_values(shortcut_mark(*machine));
    let mut out: Vec<Checked> = Vec::new();
    let mut i: usize = 0;
    assert(steps.take(0) =~= Seq::<Result<Mark, ErrorView>>::empty());
    assert(text::views(out@) =~= Seq::<Mark>::empty());
    while i < all.len()
        invariant
            i <= all@.len(),
            steps == all@.map_values(shortcut_mark(*machine)),
            lists::all(steps.take(i as int)) == Ok::<Seq<Mark>, ErrorView>(text::views(out@)),
        decreases all@.len() - i,
    {
        proof {
            lists::lemma_all_take(steps, i as int);
        }
        match check_shortcut(&all[i], machine) {
            Ok(mark) => {
                proof {
                    text::lemma_views_push(out@, mark);
                }
                out.push(mark);
            },
            Err(e) => {
                proof {
                    lists::lemma_all_fails(steps, i + 1);
                }
                return Err(e);
            },
        }
        i = i + 1;
    }
    assert(steps.take(i as int) =~= steps);
    Ok(out)
}

/// An owned environment variable.
pub open spec fn variable_mark(machine: Machine) -> spec_fn(OwnedEnvironmentVariable) -> Result<Mark, ErrorView> {
    |v: OwnedEnvironmentVariable|
        valued(
            machine,
            v.hive_key@,
            v.name@,
            registry::recorded(v.kind@, v.data@),
            "environment_variable_missing"@,
            "environment_variable_modified"@,
        )
}

/// An owned environment variable.
pub fn check_variable(v: &OwnedEnvironmentVariable, machine: &Machine) -> (r: Result<Checked, Error>)
    ensures
        agrees(r, variable_mark(*machine)(*v)),
{
    let recorded = environment::owned_data(v);
    let ghost said = registry::recorded(v.kind@, v.data@);
    assert(registry::data_agrees(recorded, said));
    value(
        machine,
        v.hive_key.as_str(),
        v.name.as_str(),
        recorded,
        "environment_variable_missing",
        "environment_variable_modified",
    )
}

/// Checks every one, in order.
pub fn check_variables(all: &Vec<OwnedEnvironmentVariable>, machine: &Machine) -> (r: Result<Vec<Checked>, Error>)
    ensures
        all_agree(r, lists::all(all@.map_values(variable_mark(*machine)))),
{
    let ghost steps = all@.map_values(variable_mark(*machine));
    let mut out: Vec<Checked> = Vec::new();
    let mut i: usize = 0;
    assert(steps.take(0) =~= Seq::<Result<Mark, ErrorView>>::empty());
    assert(text::views(out@) =~= Seq::<Mark>::empty());
    while i < all.len()
        invariant
            i <= all@.len(),
            steps == all@.map_values(variable_mark(*machine)),
            lists::all(steps.take(i as int)) == Ok::<Seq<Mark>, ErrorView>(text::views(out@)),
        decreases all@.len() - i,
    {
        proof {
            lists::lemma_all_take(steps, i as int);
        }
        match check_variable(&all[i], machine) {
            Ok(mark) => {
                proof {
                    text::lemma_views_push(out@, mark);
                }
                out.push(mark);
            },
            Err(e) => {
                proof {
                    lists::lemma_all_fails(steps, i + 1);
                }
                return Err(e);
            },
        }
        i = i + 1;
    }
    assert(steps.take(i as int) =~= steps);
    Ok(out)
}

/// An owned firewall rule: one rule of its name that reads as recorded.
pub open spec fn rule_mark(machine: Machine) -> spec_fn(OwnedFirewallRule) -> Result<Mark, ErrorView> {
    |o: OwnedFirewallRule|
        match machine::rule_in(o.rule@) {
            Err(e) => Err(e),
            Ok(recorded) => {
                let current = machine.rules_named(o.name@);
                if current.len() == 0 {
                    Ok(Mark::Wrong(finding("firewall_rule_missing"@, o.name@)))
                } else if current.len() == 1 && firewall::reads_as(current[0], recorded) {
                    Ok(Mark::Fine)
                } else {
                    Ok(Mark::Wrong(finding("firewall_rule_modified"@, o.name@)))
                }
            },
        }
}

/// An owned firewall rule: one rule of its name that reads as recorded.
pub fn check_rule(o: &OwnedFirewallRule, machine: &Machine) -> (r: Result<Checked, Error>)
    ensures
        agrees(r, rule_mark(*machine)(*o)),
{
    let recorded = firewall::rule_of(Some(o.rule.as_str()), "owned firewall rule")?;
    let current = machine.list_rules(o.name.as_str());
    assert(current@.len() > 0 ==> machine.rules_named(o.name@)[0] == current@[0]@);
    if current.len() == 0 {
        Ok(Checked::Wrong(Finding::named("firewall_rule_missing", o.name.as_str())))
    } else if current.len() == 1 && firewall::matches(&current[0], &recorded) {
        Ok(Checked::Fine)
    } else {
        Ok(Checked::Wrong(Finding::named("firewall_rule_modified", o.name.as_str())))
    }
}

/// Checks every one, in order.
pub fn check_rules(all: &Vec<OwnedFirewallRule>, machine: &Machine) -> (r: Result<Vec<Checked>, Error>)
    ensures
        all_agree(r, lists::all(all@.map_values(rule_mark(*machine)))),
{
    let ghost steps = all@.map_values(rule_mark(*machine));
    let mut out: Vec<Checked> = Vec::new();
    let mut i: usize = 0;
    assert(steps.take(0) =~= Seq::<Result<Mark, ErrorView>>::empty());
    assert(text::views(out@) =~= Seq::<Mark>::empty());
    while i < all.len()
        invariant
            i <= all@.len(),
            steps == all@.map_values(rule_mark(*machine)),
            lists::all(steps.take(i as int)) == Ok::<Seq<Mark>, ErrorView>(text::views(out@)),
        decreases all@.len() - i,
    {
        proof {
            lists::lemma_all_take(steps, i as int);
        }
        match check_rule(&all[i], machine) {
            Ok(mark) => {
                proof {
                    text::lemma_views_push(out@, mark);
                }
                out.push(mark);
            },
            Err(e) => {
                proof {
                    lists::lemma_all_fails(steps, i + 1);
                }
                return Err(e);
            },
        }
        i = i + 1;
    }
    assert(steps.take(i as int) =~= steps);
    Ok(out)
}

/// The stored program of an owned action; an action without one is not
/// checked.
pub open spec fn program_mark(state_dir: Seq<char>, machine: Machine) -> spec_fn(OwnedAction) -> Result<Mark, ErrorView> {
    |a: OwnedAction|
        match (a.artifact_sha256, a.artifact_file) {
            (Some(sha256), Some(file_name)) => Ok(
                held(
                    machine,
                    target::joined(launch::kept_in(state_dir, sha256@), file_name@),
                    sha256@,
                    "action_program_missing"@,
                    "action_program_modified"@,
                ),
            ),
            _ => Ok(Mark::Skipped),
        }
}

/// The stored program of an owned action; an action without one is not
/// checked.
pub fn check_program(a: &OwnedAction, state_dir: &str, machine: &Machine) -> (r: Result<Checked, Error>)
    ensures
        agrees(r, program_mark(state_dir@, *machine)(*a)),
{
    match (&a.artifact_sha256, &a.artifact_file) {
        (Some(sha256), Some(file_name)) => {
            let dir = launch::store_dir(state_dir, sha256.as_str());
            let program = target::join(dir.as_str(), file_name.as_str());
            Ok(
                hold(
                    machine,
                    program.as_str(),
                    sha256.as_str(),
                    "action_program_missing",
                    "action_program_modified",
                ),
            )
        },
        _ => Ok(Checked::Skipped),
    }
}

/// Checks every one, in order.
pub fn check_programs(all: &Vec<OwnedAction>, state_dir: &str, machine: &Machine) -> (r: Result<Vec<Checked>, Error>)
    ensures
        all_agree(r, lists::all(all@.map_values(program_mark(state_dir@, *machine)))),
{
    let ghost steps = all@.map_values(program_mark(state_dir@, *machine));
    let mut out: Vec<Checked> = Vec::new();
    let mut i: usize = 0;
    assert(steps.take(0) =~= Seq::<Result<Mark, ErrorView>>::empty());
    assert(text::views(out@) =~= Seq::<Mark>::empty());
    while i < all.len()
        invariant
            i <= all@.len(),
            steps == all@.map_values(program_mark(state_dir@, *machine)),
            lists::all(steps.take(i as int)) == Ok::<Seq<Mark>, ErrorView>(text::views(out@)),
        decreases all@.len() - i,
    {
        proof {
            lists::lemma_all_take(steps, i as int);
        }
        match check_program(&all[i], state_dir, machine) {
            Ok(mark) => {
                proof {
                    text::lemma_views_push(out@, mark);
                }
                out.push(mark);
            },
            Err(e) => {
                proof {
                    lists::lemma_all_fails(steps, i + 1);
                }
                return Err(e);
            },
        }
        i = i + 1;
    }
    assert(steps.take(i as int) =~= steps);
    Ok(out)
}

/// Of each registry value, whether it is a registration value.
pub open spec fn registering(registration_key: Option<Seq<char>>) -> spec_fn(OwnedRegistryValue) -> bool {
    |v: OwnedRegistryValue| registry::registers(v.key@, registration_key)
}

/// Of each registry value, whether it is a registration value.
pub fn registration_flags(all: &Vec<OwnedRegistryValue>, registration_key: Option<&str>) -> (r: Vec<
    bool,
>)
    ensures
        r@ == all@.map_values(registering(text::option_view(registration_key))),
{
    let ghost flags = all@.map_values(registering(text::option_view(registration_key)));
    let mut out: Vec<bool> = Vec::new();
    let mut i: usize = 0;
    while i < all.len()
        invariant
            i <= all@.len(),
            flags == all@.map_values(registering(text::option_view(registration_key))),
            out@ == flags.take(i as int),
        decreases all@.len() - i,
    {
        out.push(registry::is_registration_key(all[i].key.as_str(), registration_key));
        assert(out@ =~= flags.take(i + 1));
        i = i + 1;
    }
    assert(out@ =~= flags);
    out
}

}
