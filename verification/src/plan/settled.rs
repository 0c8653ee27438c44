//! A machine that already holds what the package wants is left alone: every
//! wanted resource that is in place is kept, and a keep mutates nothing.

use vstd::prelude::*;

use crate::lists;
use crate::machine::{KeyView, LinkInspection, Machine};
use crate::plan::entries;
use crate::plan::files;
use crate::plan::files::{DesiredFileView, Payload};
use crate::plan::part;
use crate::plan::part::{PartView, Step};
use crate::plan::shortcuts;
use crate::plan::target;
use crate::plan::values;
use crate::plan::values::{KindsView, RecordView};
use crate::resource::path;
use crate::resource::registry::DesiredValueView;
use crate::resource::shortcut;
use crate::resource::shortcut::DesiredShortcutView;
use crate::state::installation::{OwnedDirectory, OwnedFile, OwnedPathEntry};

verus! {

/// Whether a part of a plan only keeps: it removes nothing, reports nothing
/// and mutates nothing.
pub open spec fn only_keeps(p: PartView) -> bool {
    &&& p.removals.len() == 0
    &&& p.findings.len() == 0
    &&& forall|i: int| 0 <= i < p.forward.len() ==> (#[trigger] p.forward[i]).kind.keeps()
}

/// Whether a step succeeds and only keeps.
pub open spec fn settles(s: Step) -> bool {
    s matches Ok(p) && only_keeps(p)
}

proof fn lemma_gather_settles(steps: Seq<Step>)
    requires
        forall|i: int| 0 <= i < steps.len() ==> settles(#[trigger] steps[i]),
    ensures
        settles(part::gather(steps)),
    decreases steps.len(),
{
    if steps.len() > 0 {
        assert forall|i: int| 0 <= i < steps.drop_last().len() implies settles(
            #[trigger] steps.drop_last()[i],
        ) by {
            assert(steps.drop_last()[i] == steps[i]);
        }
        lemma_gather_settles(steps.drop_last());
        assert(settles(steps.last()));
    }
}

/// Whether a wanted directory is on record and there.
pub open spec fn directory_stands(
    directory: Seq<char>,
    owned: Seq<OwnedDirectory>,
    install_root: Seq<char>,
    machine: Machine,
) -> bool {
    &&& lists::last(owned, files::directory_named(directory)) is Some
    &&& target::placed_at(install_root, directory) matches Ok(at)
    &&& machine.has_directory(at)
}

/// Directories on record that are there are kept.
pub proof fn lemma_standing_directories_are_kept(
    directories: Seq<Seq<char>>,
    owned: Seq<OwnedDirectory>,
    install_root: Seq<char>,
    machine: Machine,
)
    requires
        forall|i: int|
            0 <= i < directories.len() ==> directory_stands(
                #[trigger] directories[i],
                owned,
                install_root,
                machine,
            ),
    ensures
        settles(
            part::gather(
                files::directory_steps(directories, owned, install_root, true, machine),
            ),
        ),
{
    let steps = files::directory_steps(directories, owned, install_root, true, machine);
    assert forall|i: int| 0 <= i < steps.len() implies settles(#[trigger] steps[i]) by {
        assert(directory_stands(directories[i], owned, install_root, machine));
    }
    lemma_gather_settles(steps);
}

/// Whether a wanted file is there with the payload's content.
pub open spec fn file_stands(
    file: DesiredFileView,
    owned: Seq<OwnedFile>,
    install_root: Seq<char>,
    payload: Option<Payload>,
    machine: Machine,
) -> bool {
    &&& target::placed_at(install_root, file.path) matches Ok(at)
    &&& machine.file(at) matches Some(seen)
    &&& files::wanted_hash(payload, file.entry) matches Ok(wanted)
    &&& files::content(seen, lists::last(owned, files::file_named(file.path))) == wanted
}

/// Files that are there with the payload's content are kept, in a repair too.
pub proof fn lemma_standing_files_are_kept(
    wanted: Seq<DesiredFileView>,
    owned: Seq<OwnedFile>,
    install_root: Seq<char>,
    repair: bool,
    payload: Option<Payload>,
    machine: Machine,
)
    requires
        forall|i: int|
            0 <= i < wanted.len() ==> file_stands(
                #[trigger] wanted[i],
                owned,
                install_root,
                payload,
                machine,
            ),
    ensures
        settles(
            part::gather(
                files::file_steps(wanted, owned, install_root, true, repair, payload, machine),
            ),
        ),
{
    let steps = files::file_steps(wanted, owned, install_root, true, repair, payload, machine);
    assert forall|i: int| 0 <= i < steps.len() implies settles(#[trigger] steps[i]) by {
        assert(file_stands(wanted[i], owned, install_root, payload, machine));
    }
    lemma_gather_settles(steps);
}

/// Whether a wanted value holds what is wanted, with a record that reads where
/// there is one.
pub open spec fn value_stands(
    want: DesiredValueView,
    records: Seq<RecordView>,
    machine: Machine,
) -> bool {
    &&& machine.value(want.key, want.name) == Some(want.data)
    &&& match lists::first(records, values::is_record(want.key.text(), want.name)) {
        Some(record) => record.restore is Ok && record.written is Ok,
        None => true,
    }
}

/// Registry values and variables that hold what is wanted are kept, whether or
/// not the run would overwrite.
pub proof fn lemma_standing_values_are_kept(
    kinds: KindsView,
    wanted: Seq<DesiredValueView>,
    records: Seq<RecordView>,
    machine: Machine,
    overwrite: bool,
)
    requires
        kinds.keep.keeps(),
        forall|i: int|
            0 <= i < wanted.len() ==> value_stands(#[trigger] wanted[i], records, machine),
    ensures
        settles(
            part::gather(values::wanted_steps(kinds, wanted, records, machine, overwrite)),
        ),
{
    let steps = values::wanted_steps(kinds, wanted, records, machine, overwrite);
    assert forall|i: int| 0 <= i < steps.len() implies settles(#[trigger] steps[i]) by {
        assert(value_stands(wanted[i], records, machine));
    }
    lemma_gather_settles(steps);
}

/// PATH entries of which an equivalent stands are kept.
pub proof fn lemma_standing_entries_are_kept(
    wanted: Seq<Seq<char>>,
    owned: Seq<OwnedPathEntry>,
    key: KeyView,
    current: Seq<char>,
    machine: Machine,
)
    requires
        forall|i: int|
            0 <= i < wanted.len() ==> path::present(
                current,
                path::normal(#[trigger] wanted[i], machine),
                machine,
            ),
    ensures
        settles(part::gather(entries::wanted_steps(wanted, owned, key, current, machine))),
{
    let steps = entries::wanted_steps(wanted, owned, key, current, machine);
    assert forall|i: int| 0 <= i < steps.len() implies settles(#[trigger] steps[i]) by {
        assert(path::present(current, path::normal(wanted[i], machine), machine));
    }
    lemma_gather_settles(steps);
}

/// Whether a wanted shortcut reads as wanted.
pub open spec fn shortcut_stands(want: DesiredShortcutView, machine: Machine) -> bool {
    machine.link(want.path) matches LinkInspection::Link(current) && shortcut::is_wanted(
        current@,
        want.link,
    )
}

/// Shortcuts that read as wanted are kept.
pub proof fn lemma_standing_shortcuts_are_kept(wanted: Seq<DesiredShortcutView>, machine: Machine)
    requires
        forall|i: int| 0 <= i < wanted.len() ==> shortcut_stands(#[trigger] wanted[i], machine),
    ensures
        settles(part::gather(shortcuts::wanted_steps(wanted, machine))),
{
    let steps = shortcuts::wanted_steps(wanted, machine);
    assert forall|i: int| 0 <= i < steps.len() implies settles(#[trigger] steps[i]) by {
        assert(shortcut_stands(wanted[i], machine));
    }
    lemma_gather_settles(steps);
}

}
