//! Shortcuts: written where they do not read as wanted, and removed only
//! where they are still the package's own.

use vstd::prelude::*;

use crate::error::{Error, ErrorView};
use crate::lists;
use crate::machine::{LinkInspection, Machine};
use crate::plan::operation;
use crate::plan::operation::PlannedOperation;
use crate::plan::part;
use crate::plan::part::{Draft, PartView, Step};
use crate::report;
use crate::report::Finding;
use crate::resource::shortcut;
use crate::resource::shortcut::{DesiredShortcut, DesiredShortcutView};
use crate::scope;
use crate::state::installation::OwnedShortcut;
use crate::state::journal::OpKind;
use crate::text;

verus! {

/// The step for one shortcut the package wants: kept where it already reads
/// as wanted, written otherwise.
pub open spec fn wanted_step(want: DesiredShortcutView, machine: Machine) -> Step {
    Ok(
        part::forward(
            match machine.link(want.path) {
                LinkInspection::Link(current) => if shortcut::is_wanted(current@, want.link) {
                    operation::shortcut(OpKind::KeepShortcut, want.path, want.link)
                } else {
                    operation::shortcut(OpKind::CreateShortcut, want.path, want.link)
                },
                _ => operation::shortcut(OpKind::CreateShortcut, want.path, want.link),
            },
        ),
    )
}

fn plan_wanted(want: &DesiredShortcut, machine: &Machine) -> (r: Result<Draft, Error>)
    ensures
        part::agrees(r, wanted_step(want@, *machine)),
{
    let kept = match machine.inspect_link(want.path.as_str()) {
        LinkInspection::Link(current) => shortcut::matches(current, &want.link),
        _ => false,
    };
    let kind = if kept {
        OpKind::KeepShortcut
    } else {
        OpKind::CreateShortcut
    };
    Ok(Draft::forward(PlannedOperation::shortcut(kind, want.path.as_str(), &want.link)))
}

/// Holds of the wanted shortcut at a path.
pub open spec fn stands_at(path: Seq<char>) -> spec_fn(DesiredShortcutView) -> bool {
    |w: DesiredShortcutView| text::lower(w.path) == text::lower(path)
}

fn is_wanted(wanted: &Vec<DesiredShortcut>, path: &str) -> (r: bool)
    ensures
        r == (lists::first(text::views(wanted@), stands_at(path@)) is Some),
{
    let ghost all = text::views(wanted@);
    let mut i: usize = 0;
    while i < wanted.len()
        invariant
            i <= wanted@.len(),
            all == text::views(wanted@),
            forall|j: int| 0 <= j < i ==> !stands_at(path@)(#[trigger] all[j]),
        decreases wanted@.len() - i,
    {
        assert(all[i as int] == wanted@[i as int]@);
        if text::same_folded(wanted[i].path.as_str(), path) {
            proof {
                lists::lemma_first_at(all, stands_at(path@), i as int);
            }
            return true;
        }
        i = i + 1;
    }
    proof {
        lists::lemma_first_none(all, stands_at(path@));
    }
    false
}

/// The step for one shortcut on record that the package no longer wants.
///
/// A shortcut folder can move under an installation — the desktop is
/// relocated, the Start Menu redirected. The link is then outside the folders
/// this scope resolves now, so it is left alone and reported; refusing the
/// whole run instead would make the product impossible to uninstall.
pub open spec fn owned_step(
    owned: OwnedShortcut,
    wanted: Seq<DesiredShortcutView>,
    install_root: Seq<char>,
    folders: Seq<String>,
    machine: Machine,
) -> Step {
    let path = owned.path@;
    if lists::first(wanted, stands_at(path)) is Some {
        Ok(part::nothing())
    } else if !shortcut::is_link_path(path) {
        Err(shortcut::not_a_link(path))
    } else if !scope::inside(path, folders) {
        Ok(part::finds(report::finding("shortcut_outside_scope_preserved"@, path)))
    } else {
        Ok(
            match machine.link(path) {
                LinkInspection::Absent => part::finds(report::finding("shortcut_missing"@, path)),
                LinkInspection::Link(current) => if shortcut::may_remove(
                    path,
                    current@,
                    owned.target@,
                    install_root,
                ) {
                    part::removal(operation::remove_shortcut(path, owned.target@))
                } else {
                    part::finds(report::finding("shortcut_modified_preserved"@, path))
                },
                LinkInspection::NotALink => part::finds(
                    report::finding("shortcut_modified_preserved"@, path),
                ),
            },
        )
    }
}

fn plan_owned(
    owned: &OwnedShortcut,
    wanted: &Vec<DesiredShortcut>,
    install_root: &str,
    folders: &Vec<String>,
    machine: &Machine,
) -> (r: Result<Draft, Error>)
    ensures
        part::agrees(
            r,
            owned_step(*owned, text::views(wanted@), install_root@, folders@, *machine),
        ),
{
    if is_wanted(wanted, owned.path.as_str()) {
        return Ok(Draft::new());
    }
    let path = match shortcut::link_path(owned.path.as_str()) {
        Ok(path) => path,
        Err(e) => {
            return Err(e);
        },
    };
    if !scope::is_inside(path.as_str(), folders) {
        return Ok(Draft::finds(Finding::at("shortcut_outside_scope_preserved", path.as_str())));
    }
    match machine.inspect_link(path.as_str()) {
        LinkInspection::Absent => Ok(Draft::finds(Finding::at("shortcut_missing", path.as_str()))),
        LinkInspection::Link(current) => {
            if shortcut::removable(path.as_str(), current, owned.target.as_str(), install_root) {
                Ok(
                    Draft::removal(
                        PlannedOperation::remove_shortcut(
                            owned.path.as_str(),
                            owned.target.as_str(),
                        ),
                    ),
                )
            } else {
                Ok(Draft::finds(Finding::at("shortcut_modified_preserved", path.as_str())))
            }
        },
        LinkInspection::NotALink => Ok(
            Draft::finds(Finding::at("shortcut_modified_preserved", path.as_str())),
        ),
    }
}

/// The steps for the shortcuts the package wants.
pub open spec fn wanted_steps(wanted: Seq<DesiredShortcutView>, machine: Machine) -> Seq<Step> {
    wanted.map_values(|w: DesiredShortcutView| wanted_step(w, machine))
}

/// The steps for the shortcuts on record.
pub open spec fn owned_steps(
    owned: Seq<OwnedShortcut>,
    wanted: Seq<DesiredShortcutView>,
    install_root: Seq<char>,
    folders: Seq<String>,
    machine: Machine,
) -> Seq<Step> {
    owned.map_values(|s: OwnedShortcut| owned_step(s, wanted, install_root, folders, machine))
}

/// What the shortcuts add to a plan.
pub open spec fn section(
    wanted: Seq<DesiredShortcutView>,
    owned: Seq<OwnedShortcut>,
    install_root: Seq<char>,
    folders: Seq<String>,
    machine: Machine,
) -> Step {
    part::both(
        part::gather(wanted_steps(wanted, machine)),
        part::gather(owned_steps(owned, wanted, install_root, folders, machine)),
    )
}

/// Keeps, writes or removes shortcuts.
pub fn reconcile_shortcuts(
    wanted: &Vec<DesiredShortcut>,
    owned: &Vec<OwnedShortcut>,
    install_root: &str,
    folders: &Vec<String>,
    machine: &Machine,
) -> (r: Result<Draft, Error>)
    ensures
        part::agrees(
            r,
            section(text::views(wanted@), owned@, install_root@, folders@, *machine),
        ),
{
    let ghost w = text::views(wanted@);
    let ghost first = wanted_steps(w, *machine);
    let ghost second = owned_steps(owned@, w, install_root@, folders@, *machine);
    let mut draft = Draft::new();
    let mut i: usize = 0;
    assert(first.take(0) =~= Seq::<Step>::empty());
    while i < wanted.len()
        invariant
            i <= wanted@.len(),
            first.len() == wanted@.len(),
            w == text::views(wanted@),
            first == wanted_steps(w, *machine),
            part::gather(first.take(i as int)) == Ok::<PartView, ErrorView>(draft@),
        decreases wanted@.len() - i,
    {
        proof {
            part::lemma_gather_take(first, i as int);
            assert(w[i as int] == wanted@[i as int]@);
        }
        match plan_wanted(&wanted[i], machine) {
            Err(e) => {
                proof {
                    part::lemma_gather_fails(first, i + 1);
                }
                return Err(e);
            },
            Ok(more) => {
                draft.absorb(more);
            },
        }
        i = i + 1;
    }
    assert(first.take(i as int) =~= first);
    let ghost done = draft@;
    let mut i: usize = 0;
    assert(second.take(0) =~= Seq::<Step>::empty());
    assert(done.plus(part::nothing()) =~= done);
    while i < owned.len()
        invariant
            i <= owned@.len(),
            second.len() == owned@.len(),
            w == text::views(wanted@),
            first == wanted_steps(w, *machine),
            part::gather(first) == Ok::<PartView, ErrorView>(done),
            second == owned_steps(owned@, w, install_root@, folders@, *machine),
            part::gather(second.take(i as int)) is Ok,
            draft@ == done.plus(part::gather(second.take(i as int))->Ok_0),
        decreases owned@.len() - i,
    {
        proof {
            part::lemma_gather_take(second, i as int);
        }
        let ghost before = part::gather(second.take(i as int))->Ok_0;
        match plan_owned(&owned[i], wanted, install_root, folders, machine) {
            Err(e) => {
                proof {
                    part::lemma_gather_fails(second, i + 1);
                }
                return Err(e);
            },
            Ok(more) => {
                assert(done.plus(before).plus(more@) =~= done.plus(before.plus(more@)));
                draft.absorb(more);
            },
        }
        i = i + 1;
    }
    assert(second.take(i as int) =~= second);
    Ok(draft)
}

/// A shortcut is removed only inside the scope's own folders and only where
/// it is still the one the engine wrote.
pub proof fn lemma_only_own_shortcuts_go(
    owned: OwnedShortcut,
    wanted: Seq<DesiredShortcutView>,
    install_root: Seq<char>,
    folders: Seq<String>,
    machine: Machine,
)
    requires
        owned_step(owned, wanted, install_root, folders, machine) is Ok,
        owned_step(owned, wanted, install_root, folders, machine)->Ok_0.removals.len() > 0,
    ensures
        scope::inside(owned.path@, folders),
        machine.link(owned.path@) matches LinkInspection::Link(current) && shortcut::may_remove(
            owned.path@,
            current@,
            owned.target@,
            install_root,
        ),
{
}

}
