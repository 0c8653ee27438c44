//! Directories and files: what the package wants of them, what is kept, and
//! what an installation gives back.

use vstd::prelude::*;

use crate::error::{Error, ErrorView};
use crate::lists;
use crate::machine::{FileSeen, Machine};
use crate::plan::operation;
use crate::plan::operation::{OpView, PlannedOperation};
use crate::plan::part;
use crate::plan::part::{Draft, FileFate, PartView, Step};
use crate::plan::target;
use crate::report;
use crate::report::Finding;
use crate::state::installation::{OwnedDirectory, OwnedFile};
use crate::state::journal::OpKind;
use crate::text;

verus! {

/// A file the package wants.
#[derive(Debug, PartialEq, Eq)]
pub struct DesiredFile {
    /// Install-relative path with backslashes.
    pub path: String,
    /// The payload entry that holds it.
    pub entry: String,
    pub size: u64,
}

/// What a [`DesiredFile`] says.
#[verifier::ext_equal]
pub struct DesiredFileView {
    pub path: Seq<char>,
    pub entry: Seq<char>,
    pub size: u64,
}

impl View for DesiredFile {
    type V = DesiredFileView;

    open spec fn view(&self) -> DesiredFileView {
        DesiredFileView { path: self.path@, entry: self.entry@, size: self.size }
    }
}

/// One entry of a payload.
#[derive(Debug, PartialEq, Eq)]
pub struct PayloadEntry {
    pub entry: String,
    pub sha256: String,
}

/// The index of the payload a run carries.
#[derive(Debug, PartialEq, Eq)]
pub struct Payload {
    pub entries: Vec<PayloadEntry>,
}

/// Holds of the entry of a name.
pub open spec fn is_entry(entry: Seq<char>) -> spec_fn(PayloadEntry) -> bool {
    |e: PayloadEntry| e.entry@ == entry
}

/// What a run without a payload is refused with.
pub open spec fn no_payload() -> ErrorView {
    ErrorView { code: "payload_unavailable"@, message: "this run carries no payload"@ }
}

/// What an entry the payload does not hold is refused with.
pub open spec fn no_entry(entry: Seq<char>) -> ErrorView {
    ErrorView { code: "payload_invalid"@, message: "the payload holds no entry "@ + entry }
}

/// The hash the payload brings for an entry.
pub open spec fn wanted_hash(payload: Option<Payload>, entry: Seq<char>) -> Result<
    Seq<char>,
    ErrorView,
> {
    match payload {
        None => Err(no_payload()),
        Some(p) => match lists::first(p.entries@, is_entry(entry)) {
            Some(e) => Ok(e.sha256@),
            None => Err(no_entry(entry)),
        },
    }
}

/// The value behind an optional reference.
pub open spec fn held<T>(o: Option<&T>) -> Option<T> {
    match o {
        Some(t) => Some(*t),
        None => None,
    }
}

fn hash_of<'a>(payload: Option<&'a Payload>, entry: &str) -> (r: Result<&'a str, Error>)
    ensures
        match (r, wanted_hash(held(payload), entry@)) {
            (Ok(a), Ok(b)) => a@ == b,
            (Err(a), Err(b)) => a@ == b,
            _ => false,
        },
{
    match payload {
        None => Err(Error::new("payload_unavailable", "this run carries no payload")),
        Some(p) => {
            let mut i: usize = 0;
            while i < p.entries.len()
                invariant
                    i <= p.entries@.len(),
                    payload == Some(p),
                    forall|j: int| 0 <= j < i ==> !is_entry(entry@)(#[trigger] p.entries@[j]),
                decreases p.entries@.len() - i,
            {
                if text::same(p.entries[i].entry.as_str(), entry) {
                    proof {
                        lists::lemma_first_at(p.entries@, is_entry(entry@), i as int);
                    }
                    return Ok(p.entries[i].sha256.as_str());
                }
                i = i + 1;
            }
            proof {
                lists::lemma_first_none(p.entries@, is_entry(entry@));
            }
            let message = text::cat2("the payload holds no entry ", entry);
            Err(Error::new("payload_invalid", message.as_str()))
        },
    }
}

/// Holds of the directory on record for a path.
pub open spec fn directory_named(path: Seq<char>) -> spec_fn(OwnedDirectory) -> bool {
    |d: OwnedDirectory| text::lower(d.path@) == text::lower(path)
}

/// Holds of the file on record for a path.
pub open spec fn file_named(path: Seq<char>) -> spec_fn(OwnedFile) -> bool {
    |f: OwnedFile| text::lower(f.path@) == text::lower(path)
}

fn find_directory<'a>(owned: &'a Vec<OwnedDirectory>, path: &str) -> (r: Option<
    &'a OwnedDirectory,
>)
    ensures
        held(r) == lists::last(owned@, directory_named(path@)),
{
    let ghost p = directory_named(path@);
    let mut i: usize = owned.len();
    assert(owned@.take(i as int) =~= owned@);
    while i > 0
        invariant
            i <= owned@.len(),
            p == directory_named(path@),
            lists::last(owned@, p) == lists::last(owned@.take(i as int), p),
        decreases i,
    {
        assert(owned@.take(i as int).last() == owned@[i - 1]);
        assert(owned@.take(i as int).drop_last() =~= owned@.take(i - 1));
        if text::same_folded(owned[i - 1].path.as_str(), path) {
            return Some(&owned[i - 1]);
        }
        i = i - 1;
    }
    None
}

fn find_file<'a>(owned: &'a Vec<OwnedFile>, path: &str) -> (r: Option<&'a OwnedFile>)
    ensures
        held(r) == lists::last(owned@, file_named(path@)),
{
    let ghost p = file_named(path@);
    let mut i: usize = owned.len();
    assert(owned@.take(i as int) =~= owned@);
    while i > 0
        invariant
            i <= owned@.len(),
            p == file_named(path@),
            lists::last(owned@, p) == lists::last(owned@.take(i as int), p),
        decreases i,
    {
        assert(owned@.take(i as int).last() == owned@[i - 1]);
        assert(owned@.take(i as int).drop_last() =~= owned@.take(i - 1));
        if text::same_folded(owned[i - 1].path.as_str(), path) {
            return Some(&owned[i - 1]);
        }
        i = i - 1;
    }
    None
}

/// The step for one directory the package wants: kept where it is on record
/// and, when the run looks, still there; created otherwise.
pub open spec fn directory_step(
    directory: Seq<char>,
    owned: Seq<OwnedDirectory>,
    install_root: Seq<char>,
    inspect: bool,
    machine: Machine,
) -> Step {
    match lists::last(owned, directory_named(directory)) {
        Some(existing) => if !inspect {
            Ok(
                part::forward(
                    operation::carried(OpKind::KeepDirectory, directory, !existing.created),
                ),
            )
        } else {
            match target::placed_at(install_root, directory) {
                Err(e) => Err(e),
                Ok(at) => Ok(
                    part::forward(
                        if machine.has_directory(at) {
                            operation::carried(OpKind::KeepDirectory, directory, !existing.created)
                        } else {
                            operation::bare(OpKind::CreateDirectory, directory)
                        },
                    ),
                ),
            }
        },
        None => Ok(part::forward(operation::bare(OpKind::CreateDirectory, directory))),
    }
}

fn plan_directory(
    directory: &str,
    owned: &Vec<OwnedDirectory>,
    install_root: &str,
    inspect: bool,
    machine: &Machine,
) -> (r: Result<Draft, Error>)
    ensures
        part::agrees(r, directory_step(directory@, owned@, install_root@, inspect, *machine)),
{
    match find_directory(owned, directory) {
        Some(existing) => {
            if inspect {
                match target::absolute(install_root, directory) {
                    Err(e) => {
                        return Err(e);
                    },
                    Ok(at) => {
                        if !machine.directory_exists(at.as_str()) {
                            return Ok(
                                Draft::forward(
                                    PlannedOperation::new(OpKind::CreateDirectory, directory),
                                ),
                            );
                        }
                    },
                }
            }
            Ok(
                Draft::forward(
                    PlannedOperation::carried(OpKind::KeepDirectory, directory, !existing.created),
                ),
            )
        },
        None => Ok(
            Draft::forward(PlannedOperation::new(OpKind::CreateDirectory, directory)),
        ),
    }
}

/// Whether a file is still the recorded one by its stat: size and last-write
/// time are those the record was made with.
pub open spec fn is_unchanged(seen: FileSeen, file: OwnedFile) -> bool {
    file.modified is Some && seen.modified == file.modified && seen.size == file.size
}

/// The hash a file counts with: the recorded one where its stat is unchanged,
/// its own otherwise.
pub open spec fn content(seen: FileSeen, record: Option<OwnedFile>) -> Seq<char> {
    match record {
        Some(file) => if is_unchanged(seen, file) {
            file.sha256@
        } else {
            seen.sha256@
        },
        None => seen.sha256@,
    }
}

fn content_of<'a>(seen: &'a FileSeen, record: Option<&'a OwnedFile>) -> (r: &'a str)
    ensures
        r@ == content(*seen, held(record)),
{
    if let Some(file) = record {
        if let Some(print) = file.fingerprint() {
            if let Some(modified) = seen.modified {
                if modified == print.modified && seen.size == print.size {
                    return file.sha256.as_str();
                }
            }
        }
    }
    seen.sha256.as_str()
}

/// A step that writes a file.
pub open spec fn writes(file: DesiredFileView, fate: FileFate) -> PartView {
    PartView {
        fates: seq![fate],
        ..part::forward(operation::install_file(file.path, file.entry, file.size))
    }
}

/// A step that writes a file a repair found gone or changed.
pub open spec fn repairs(file: DesiredFileView, at: Seq<char>, fate: FileFate) -> PartView {
    writes(file, fate).plus(part::finds(report::finding("file_repaired"@, at)))
}

/// The step for one file the package wants. A run that looks keeps a file
/// that already reads as the payload's.
pub open spec fn file_step(
    file: DesiredFileView,
    owned: Seq<OwnedFile>,
    install_root: Seq<char>,
    inspect: bool,
    repair: bool,
    payload: Option<Payload>,
    machine: Machine,
) -> Step {
    let record = lists::last(owned, file_named(file.path));
    let is_owned = record is Some;
    match target::placed_at(install_root, file.path) {
        Err(e) => Err(e),
        Ok(at) => if !inspect {
            Ok(writes(file, FileFate::Added))
        } else {
            match machine.file(at) {
                None => Ok(
                    if repair && is_owned {
                        repairs(file, at, FileFate::RepairedMissing)
                    } else {
                        writes(file, FileFate::Added)
                    },
                ),
                Some(seen) => match wanted_hash(payload, file.entry) {
                    Err(e) => Err(e),
                    Ok(wanted) => Ok(
                        if content(seen, record) == wanted {
                            PartView {
                                fates: seq![FileFate::Kept],
                                ..part::forward(
                                    operation::keep_file(
                                        file.path,
                                        file.size,
                                        wanted,
                                        seen.modified,
                                    ),
                                )
                            }
                        } else if repair && is_owned {
                            repairs(file, at, FileFate::RepairedChanged)
                        } else {
                            writes(file, FileFate::Replaced)
                        },
                    ),
                },
            }
        },
    }
}

fn write_file(file: &DesiredFile, fate: FileFate) -> (r: Draft)
    ensures
        r@ == writes(file@, fate),
{
    let mut draft = Draft::forward(
        PlannedOperation::install_file(file.path.as_str(), file.entry.as_str(), file.size),
    );
    draft.fates.push(fate);
    assert(draft@ =~= writes(file@, fate));
    draft
}

fn repair_file(file: &DesiredFile, at: &str, fate: FileFate) -> (r: Draft)
    ensures
        r@ == repairs(file@, at@, fate),
{
    let mut draft = write_file(file, fate);
    draft.absorb(Draft::finds(Finding::at("file_repaired", at)));
    draft
}

fn plan_file(
    file: &DesiredFile,
    owned: &Vec<OwnedFile>,
    install_root: &str,
    inspect: bool,
    repair: bool,
    payload: Option<&Payload>,
    machine: &Machine,
) -> (r: Result<Draft, Error>)
    ensures
        part::agrees(
            r,
            file_step(file@, owned@, install_root@, inspect, repair, held(payload), *machine),
        ),
{
    let record = find_file(owned, file.path.as_str());
    let is_owned = record.is_some();
    let at = match target::absolute(install_root, file.path.as_str()) {
        Err(e) => {
            return Err(e);
        },
        Ok(at) => at,
    };
    if !inspect {
        return Ok(write_file(file, FileFate::Added));
    }
    match machine.inspect_file(at.as_str()) {
        None => {
            if repair && is_owned {
                Ok(repair_file(file, at.as_str(), FileFate::RepairedMissing))
            } else {
                Ok(write_file(file, FileFate::Added))
            }
        },
        Some(seen) => match hash_of(payload, file.entry.as_str()) {
            Err(e) => Err(e),
            Ok(wanted) => {
                if text::same(content_of(seen, record), wanted) {
                    let mut draft = Draft::forward(
                        PlannedOperation::keep_file(
                            file.path.as_str(),
                            file.size,
                            wanted,
                            seen.modified,
                        ),
                    );
                    let ghost kept = draft@;
                    draft.fates.push(FileFate::Kept);
                    assert(draft@ =~= (PartView { fates: seq![FileFate::Kept], ..kept }));
                    Ok(draft)
                } else if repair && is_owned {
                    Ok(repair_file(file, at.as_str(), FileFate::RepairedChanged))
                } else {
                    Ok(write_file(file, FileFate::Replaced))
                }
            },
        },
    }
}

/// The steps for the directories the package wants.
pub open spec fn directory_steps(
    directories: Seq<Seq<char>>,
    owned: Seq<OwnedDirectory>,
    install_root: Seq<char>,
    inspect: bool,
    machine: Machine,
) -> Seq<Step> {
    directories.map_values(
        |d: Seq<char>| directory_step(d, owned, install_root, inspect, machine),
    )
}

/// Keeps or creates every directory the package wants.
pub fn reconcile_directories(
    directories: &Vec<String>,
    owned: &Vec<OwnedDirectory>,
    install_root: &str,
    inspect: bool,
    machine: &Machine,
) -> (r: Result<Draft, Error>)
    ensures
        part::agrees(
            r,
            part::gather(
                directory_steps(
                    text::views(directories@),
                    owned@,
                    install_root@,
                    inspect,
                    *machine,
                ),
            ),
        ),
{
    let ghost all = text::views(directories@);
    let ghost steps = directory_steps(all, owned@, install_root@, inspect, *machine);
    let mut draft = Draft::new();
    let mut i: usize = 0;
    assert(steps.take(0) =~= Seq::<Step>::empty());
    while i < directories.len()
        invariant
            i <= directories@.len(),
            all == text::views(directories@),
            steps == directory_steps(all, owned@, install_root@, inspect, *machine),
            part::gather(steps.take(i as int)) == Ok::<PartView, ErrorView>(draft@),
        decreases directories@.len() - i,
    {
        proof {
            part::lemma_gather_take(steps, i as int);
            assert(all[i as int] == directories@[i as int]@);
        }
        match plan_directory(directories[i].as_str(), owned, install_root, inspect, machine) {
            Err(e) => {
                proof {
                    part::lemma_gather_fails(steps, i + 1);
                }
                return Err(e);
            },
            Ok(more) => {
                draft.absorb(more);
            },
        }
        i = i + 1;
    }
    assert(steps.take(i as int) =~= steps);
    Ok(draft)
}

/// The steps for the files the package wants.
pub open spec fn file_steps(
    files: Seq<DesiredFileView>,
    owned: Seq<OwnedFile>,
    install_root: Seq<char>,
    inspect: bool,
    repair: bool,
    payload: Option<Payload>,
    machine: Machine,
) -> Seq<Step> {
    files.map_values(
        |f: DesiredFileView|
            file_step(f, owned, install_root, inspect, repair, payload, machine),
    )
}

/// Keeps or writes every file the package wants.
pub fn reconcile_files(
    files: &Vec<DesiredFile>,
    owned: &Vec<OwnedFile>,
    install_root: &str,
    inspect: bool,
    repair: bool,
    payload: Option<&Payload>,
    machine: &Machine,
) -> (r: Result<Draft, Error>)
    ensures
        part::agrees(
            r,
            part::gather(
                file_steps(
                    text::views(files@),
                    owned@,
                    install_root@,
                    inspect,
                    repair,
                    held(payload),
                    *machine,
                ),
            ),
        ),
{
    let ghost steps = file_steps(
        text::views(files@),
        owned@,
        install_root@,
        inspect,
        repair,
        held(payload),
        *machine,
    );
    let mut draft = Draft::new();
    let mut i: usize = 0;
    assert(steps.take(0) =~= Seq::<Step>::empty());
    while i < files.len()
        invariant
            i <= files@.len(),
            steps == file_steps(
                text::views(files@),
                owned@,
                install_root@,
                inspect,
                repair,
                held(payload),
                *machine,
            ),
            part::gather(steps.take(i as int)) == Ok::<PartView, ErrorView>(draft@),
        decreases files@.len() - i,
    {
        proof {
            part::lemma_gather_take(steps, i as int);
            assert(text::views(files@)[i as int] == files@[i as int]@);
        }
        match plan_file(&files[i], owned, install_root, inspect, repair, payload, machine) {
            Err(e) => {
                proof {
                    part::lemma_gather_fails(steps, i + 1);
                }
                return Err(e);
            },
            Ok(more) => {
                draft.absorb(more);
            },
        }
        i = i + 1;
    }
    assert(steps.take(i as int) =~= steps);
    Ok(draft)
}

/// Holds of the wanted file of a path.
pub open spec fn wants_path(path: Seq<char>) -> spec_fn(DesiredFileView) -> bool {
    |f: DesiredFileView| text::lower(f.path) == text::lower(path)
}

/// Whether the package still wants a file.
pub open spec fn is_wanted(path: Seq<char>, files: Seq<DesiredFileView>) -> bool {
    lists::first(files, wants_path(path)) is Some
}

fn wanted(path: &str, files: &Vec<DesiredFile>) -> (r: bool)
    ensures
        r == is_wanted(path@, text::views(files@)),
{
    let ghost all = text::views(files@);
    let mut i: usize = 0;
    while i < files.len()
        invariant
            i <= files@.len(),
            all == text::views(files@),
            forall|j: int| 0 <= j < i ==> !wants_path(path@)(#[trigger] all[j]),
        decreases files@.len() - i,
    {
        assert(all[i as int] == files@[i as int]@);
        if text::same_folded(files[i].path.as_str(), path) {
            proof {
                lists::lemma_first_at(all, wants_path(path@), i as int);
            }
            return true;
        }
        i = i + 1;
    }
    proof {
        lists::lemma_first_none(all, wants_path(path@));
    }
    false
}

/// Whether an owned file is no longer wanted, is there, and was changed.
pub open spec fn is_modified(
    file: OwnedFile,
    files: Seq<DesiredFileView>,
    install_root: Seq<char>,
    machine: Machine,
) -> bool {
    &&& !is_wanted(file.path@, files)
    &&& target::placed_at(install_root, file.path@) is Ok
    &&& match machine.file(target::placed_at(install_root, file.path@)->Ok_0) {
        Some(seen) => content(seen, Some(file)) != file.sha256@,
        None => false,
    }
}

/// The step for one owned file: where the package no longer wants it, it is
/// removed when it is still what the engine wrote, and reported otherwise.
pub open spec fn file_removal(
    file: OwnedFile,
    files: Seq<DesiredFileView>,
    install_root: Seq<char>,
    machine: Machine,
) -> Step {
    if is_wanted(file.path@, files) {
        Ok(part::nothing())
    } else {
        match target::placed_at(install_root, file.path@) {
            Err(e) => Err(e),
            Ok(at) => match machine.file(at) {
                None => Ok(part::finds(report::finding("file_missing"@, at))),
                Some(seen) => if content(seen, Some(file)) != file.sha256@ {
                    Ok(part::finds(report::finding("file_modified_preserved"@, at)))
                } else {
                    Ok(part::removal(operation::remove_file(file.path@, file.size)))
                },
            },
        }
    }
}

/// The steps for the owned files.
pub open spec fn file_removals(
    owned: Seq<OwnedFile>,
    files: Seq<DesiredFileView>,
    install_root: Seq<char>,
    machine: Machine,
) -> Seq<Step> {
    owned.map_values(|f: OwnedFile| file_removal(f, files, install_root, machine))
}

/// Plans the removal of one owned file, or a finding when it is absent or
/// was modified.
fn remove_owned_file(
    file: &OwnedFile,
    files: &Vec<DesiredFile>,
    install_root: &str,
    machine: &Machine,
) -> (r: Result<(Draft, bool), Error>)
    ensures
        match (r, file_removal(*file, text::views(files@), install_root@, *machine)) {
            (Ok((draft, modified)), Ok(s)) => draft@ == s && modified == is_modified(
                *file,
                text::views(files@),
                install_root@,
                *machine,
            ),
            (Err(e), Err(s)) => e@ == s,
            _ => false,
        },
{
    if wanted(file.path.as_str(), files) {
        return Ok((Draft::new(), false));
    }
    match target::absolute(install_root, file.path.as_str()) {
        Err(e) => Err(e),
        Ok(at) => match machine.inspect_file(at.as_str()) {
            None => Ok((Draft::finds(Finding::at("file_missing", at.as_str())), false)),
            Some(seen) => {
                if !text::same(content_of(seen, Some(file)), file.sha256.as_str()) {
                    Ok(
                        (
                            Draft::finds(Finding::at("file_modified_preserved", at.as_str())),
                            true,
                        ),
                    )
                } else {
                    Ok(
                        (
                            Draft::removal(
                                PlannedOperation::remove_file(file.path.as_str(), file.size),
                            ),
                            false,
                        ),
                    )
                }
            },
        },
    }
}

/// Holds of the owned files that stay because somebody changed them.
pub open spec fn stays(files: Seq<DesiredFileView>, install_root: Seq<char>, machine: Machine) -> spec_fn(
    OwnedFile,
) -> bool {
    |f: OwnedFile| is_modified(f, files, install_root, machine)
}

/// The paths of owned files.
pub open spec fn paths(files: Seq<OwnedFile>) -> Seq<Seq<char>> {
    files.map_values(|f: OwnedFile| f.path@)
}

/// The paths of the files that stay because somebody changed them.
pub open spec fn preserved(
    owned: Seq<OwnedFile>,
    files: Seq<DesiredFileView>,
    install_root: Seq<char>,
    machine: Machine,
) -> Seq<Seq<char>> {
    paths(owned.filter(stays(files, install_root, machine)))
}

/// Plans the removal of every owned file the package no longer wants, and
/// tells which of them stay.
pub fn remove_files(
    owned: &Vec<OwnedFile>,
    files: &Vec<DesiredFile>,
    install_root: &str,
    machine: &Machine,
) -> (r: Result<(Draft, Vec<String>), Error>)
    ensures
        match (r, part::gather(file_removals(owned@, text::views(files@), install_root@, *machine))) {
            (Ok((draft, kept)), Ok(s)) => draft@ == s && text::views(kept@) == preserved(
                owned@,
                text::views(files@),
                install_root@,
                *machine,
            ),
            (Err(e), Err(s)) => e@ == s,
            _ => false,
        },
{
    let ghost steps = file_removals(owned@, text::views(files@), install_root@, *machine);
    let ghost p = stays(text::views(files@), install_root@, *machine);
    let mut draft = Draft::new();
    let mut kept: Vec<String> = Vec::new();
    let mut i: usize = 0;
    proof {
        reveal(Seq::filter);
        assert(steps.take(0) =~= Seq::<Step>::empty());
        assert(text::views(kept@) =~= paths(owned@.take(0).filter(p)));
    }
    while i < owned.len()
        invariant
            i <= owned@.len(),
            steps == file_removals(owned@, text::views(files@), install_root@, *machine),
            p == stays(text::views(files@), install_root@, *machine),
            part::gather(steps.take(i as int)) == Ok::<PartView, ErrorView>(draft@),
            text::views(kept@) == paths(owned@.take(i as int).filter(p)),
        decreases owned@.len() - i,
    {
        proof {
            part::lemma_gather_take(steps, i as int);
            lists::lemma_filter_take(owned@, p, i as int);
        }
        let ghost before = owned@.take(i as int).filter(p);
        match remove_owned_file(&owned[i], files, install_root, machine) {
            Err(e) => {
                proof {
                    part::lemma_gather_fails(steps, i + 1);
                }
                return Err(e);
            },
            Ok((more, modified)) => {
                draft.absorb(more);
                if modified {
                    let path = owned[i].path.clone();
                    proof {
                        text::lemma_views_push(kept@, path);
                        assert(paths(before.push(owned@[i as int])) =~= paths(before).push(path@));
                    }
                    kept.push(path);
                }
            },
        }
        i = i + 1;
    }
    assert(steps.take(i as int) =~= steps);
    assert(owned@.take(i as int) =~= owned@);
    Ok((draft, kept))
}

/// Whether a directory lies on the way to a file.
pub open spec fn lies_above(directory: Seq<char>, path: Seq<char>) -> bool {
    text::lower(directory).push('\\').is_prefix_of(text::lower(path))
}

/// Whether a directory lies on the way to one of several files; the install
/// root lies on the way to every one.
pub open spec fn leads_to(directory: Seq<char>, paths: Seq<Seq<char>>) -> bool {
    exists|i: int|
        0 <= i < paths.len() && (directory.len() == 0 || lies_above(directory, #[trigger] paths[i]))
}

fn leads(directory: &str, paths: &Vec<String>) -> (r: bool)
    ensures
        r == leads_to(directory@, text::views(paths@)),
{
    let ghost all = text::views(paths@);
    let mut opening = text::lower_of(directory);
    opening.push('\\');
    let mut i: usize = 0;
    while i < paths.len()
        invariant
            i <= paths@.len(),
            all == text::views(paths@),
            opening@ == text::lower(directory@).push('\\'),
            forall|j: int|
                0 <= j < i ==> !(directory@.len() == 0 || lies_above(
                    directory@,
                    #[trigger] all[j],
                )),
        decreases paths@.len() - i,
    {
        assert(all[i as int] == paths@[i as int]@);
        let path = text::lower_of(paths[i].as_str());
        if directory.is_empty() || text::starts_with(path.as_str(), opening.as_str()) {
            return true;
        }
        i = i + 1;
    }
    false
}

/// Holds of the paths that are `path` to Windows.
pub open spec fn is_path(path: Seq<char>) -> spec_fn(Seq<char>) -> bool {
    |p: Seq<char>| text::lower(p) == text::lower(path)
}

fn is_listed(paths: &Vec<String>, path: &str) -> (r: bool)
    ensures
        r == (lists::first(text::views(paths@), is_path(path@)) is Some),
{
    let ghost all = text::views(paths@);
    let mut i: usize = 0;
    while i < paths.len()
        invariant
            i <= paths@.len(),
            all == text::views(paths@),
            forall|j: int| 0 <= j < i ==> !is_path(path@)(#[trigger] all[j]),
        decreases paths@.len() - i,
    {
        assert(all[i as int] == paths@[i as int]@);
        if text::same_folded(paths[i].as_str(), path) {
            proof {
                lists::lemma_first_at(all, is_path(path@), i as int);
            }
            return true;
        }
        i = i + 1;
    }
    proof {
        lists::lemma_first_none(all, is_path(path@));
    }
    false
}

/// Holds of the directories that go: the ones the engine created that are
/// neither still wanted nor on the way to a preserved file.
pub open spec fn goes(wanted: Seq<Seq<char>>, preserved: Seq<Seq<char>>) -> spec_fn(
    OwnedDirectory,
) -> bool {
    |d: OwnedDirectory|
        d.created && lists::first(wanted, is_path(d.path@)) is None && !leads_to(d.path@, preserved)
}

/// The paths of owned directories.
pub open spec fn directory_paths(v: Seq<OwnedDirectory>) -> Seq<Seq<char>> {
    v.map_values(|d: OwnedDirectory| d.path@)
}

/// The paths of the directories that go, deepest first.
pub open spec fn gone(
    owned: Seq<OwnedDirectory>,
    wanted: Seq<Seq<char>>,
    preserved: Seq<Seq<char>>,
) -> Seq<Seq<char>> {
    lists::deep_first(directory_paths(owned.filter(goes(wanted, preserved))))
}

/// The removals of directories.
pub open spec fn directory_removals(gone: Seq<Seq<char>>) -> Seq<OpView> {
    gone.map_values(|d: Seq<char>| operation::bare(OpKind::RemoveDirectory, d))
}

/// Plans the removal, deepest first, of the directories the engine created
/// that are neither still wanted nor on the path of a preserved file.
pub fn remove_directories(
    owned: &Vec<OwnedDirectory>,
    wanted: &Vec<String>,
    preserved: &Vec<String>,
) -> (r: Vec<PlannedOperation>)
    ensures
        text::views(r@) == directory_removals(
            gone(owned@, text::views(wanted@), text::views(preserved@)),
        ),
{
    let ghost w = text::views(wanted@);
    let ghost kept = text::views(preserved@);
    let ghost p = goes(w, kept);
    let mut out: Vec<String> = Vec::new();
    let mut i: usize = 0;
    proof {
        reveal(Seq::filter);
        assert(text::views(out@) =~= directory_paths(owned@.take(0).filter(p)));
    }
    while i < owned.len()
        invariant
            i <= owned@.len(),
            w == text::views(wanted@),
            kept == text::views(preserved@),
            p == goes(w, kept),
            text::views(out@) == directory_paths(owned@.take(i as int).filter(p)),
        decreases owned@.len() - i,
    {
        proof {
            lists::lemma_filter_take(owned@, p, i as int);
        }
        let ghost before = owned@.take(i as int).filter(p);
        let path = owned[i].path.as_str();
        if owned[i].created && !is_listed(wanted, path) && !leads(path, preserved) {
            let copy = owned[i].path.clone();
            proof {
                text::lemma_views_push(out@, copy);
                assert(directory_paths(before.push(owned@[i as int])) =~= directory_paths(
                    before,
                ).push(copy@));
            }
            out.push(copy);
        }
        i = i + 1;
    }
    assert(owned@.take(i as int) =~= owned@);
    let sorted = lists::sort_paths(out);
    let deepest = lists::reversed(&sorted);
    let ghost order = gone(owned@, w, kept);
    let mut ops: Vec<PlannedOperation> = Vec::new();
    let mut k: usize = 0;
    while k < deepest.len()
        invariant
            k <= deepest@.len(),
            text::views(deepest@) == order,
            ops@.len() == k,
            forall|j: int|
                0 <= j < k ==> #[trigger] ops@[j]@ == operation::bare(
                    OpKind::RemoveDirectory,
                    order[j],
                ),
        decreases deepest@.len() - k,
    {
        assert(order[k as int] == deepest@[k as int]@);
        ops.push(PlannedOperation::new(OpKind::RemoveDirectory, deepest[k].as_str()));
        k = k + 1;
    }
    assert(text::views(ops@) =~= directory_removals(order));
    ops
}

/// A removal of a file: the file is on record and on the machine it is still
/// what was written, by its stat or by its hash.
pub open spec fn is_own_removal(
    op: OpView,
    owned: Seq<OwnedFile>,
    install_root: Seq<char>,
    machine: Machine,
) -> bool {
    exists|i: int|
        0 <= i < owned.len() && ({
            let file = #[trigger] owned[i];
            &&& op == operation::remove_file(file.path@, file.size)
            &&& target::placed_at(install_root, file.path@) is Ok
            &&& machine.file(target::placed_at(install_root, file.path@)->Ok_0) is Some
            &&& content(
                machine.file(target::placed_at(install_root, file.path@)->Ok_0)->Some_0,
                Some(file),
            ) == file.sha256@
        })
}

/// A file somebody changed is never removed: every file removal is of a file
/// that still reads as the one the engine wrote.
pub proof fn lemma_modified_files_stay(
    owned: Seq<OwnedFile>,
    files: Seq<DesiredFileView>,
    install_root: Seq<char>,
    machine: Machine,
)
    requires
        part::gather(file_removals(owned, files, install_root, machine)) is Ok,
    ensures
        forall|i: int|
            0 <= i < part::gather(
                file_removals(owned, files, install_root, machine),
            )->Ok_0.removals.len() ==> is_own_removal(
                #[trigger] part::gather(
                    file_removals(owned, files, install_root, machine),
                )->Ok_0.removals[i],
                owned,
                install_root,
                machine,
            ),
{
    let steps = file_removals(owned, files, install_root, machine);
    assert(steps.take(owned.len() as int) =~= steps);
    lemma_own_removals(owned, files, install_root, machine, owned.len() as int);
}

proof fn lemma_own_removals(
    owned: Seq<OwnedFile>,
    files: Seq<DesiredFileView>,
    install_root: Seq<char>,
    machine: Machine,
    n: int,
)
    requires
        0 <= n <= owned.len(),
        part::gather(file_removals(owned, files, install_root, machine).take(n)) is Ok,
    ensures
        forall|i: int|
            0 <= i < part::gather(
                file_removals(owned, files, install_root, machine).take(n),
            )->Ok_0.removals.len() ==> is_own_removal(
                #[trigger] part::gather(
                    file_removals(owned, files, install_root, machine).take(n),
                )->Ok_0.removals[i],
                owned,
                install_root,
                machine,
            ),
    decreases n,
{
    let steps = file_removals(owned, files, install_root, machine);
    if n > 0 {
        part::lemma_gather_take(steps, n - 1);
        lemma_own_removals(owned, files, install_root, machine, n - 1);
        let before = part::gather(steps.take(n - 1))->Ok_0;
        let after = part::gather(steps.take(n))->Ok_0;
        let step = steps[n - 1]->Ok_0;
        assert forall|i: int| 0 <= i < after.removals.len() implies is_own_removal(
            #[trigger] after.removals[i],
            owned,
            install_root,
            machine,
        ) by {
            if i < before.removals.len() {
                assert(after.removals[i] == before.removals[i]);
            } else {
                assert(after.removals[i] == step.removals[i - before.removals.len()]);
                assert(owned[n - 1] == owned[n - 1]);
            }
        }
    }
}

/// Whether the engine created a directory.
pub open spec fn was_created(path: Seq<char>, owned: Seq<OwnedDirectory>) -> bool {
    exists|k: int| 0 <= k < owned.len() && (#[trigger] owned[k]).created && owned[k].path@ == path
}

/// Directories go deepest first, only where the engine created them, and
/// never while a preserved file lies below.
pub proof fn lemma_only_empty_own_directories_go(
    owned: Seq<OwnedDirectory>,
    wanted: Seq<Seq<char>>,
    preserved: Seq<Seq<char>>,
)
    ensures
        forall|i: int|
            0 <= i < gone(owned, wanted, preserved).len() ==> !leads_to(
                #[trigger] gone(owned, wanted, preserved)[i],
                preserved,
            ),
        forall|i: int|
            0 <= i < gone(owned, wanted, preserved).len() ==> was_created(
                #[trigger] gone(owned, wanted, preserved)[i],
                owned,
            ),
        forall|i: int, j: int|
            0 <= i < j < gone(owned, wanted, preserved).len() ==> lists::depth(
                #[trigger] gone(owned, wanted, preserved)[j],
            ) <= lists::depth(#[trigger] gone(owned, wanted, preserved)[i]),
{
    let p = goes(wanted, preserved);
    let kept = owned.filter(p);
    let listed = directory_paths(kept);
    let order = gone(owned, wanted, preserved);
    lists::lemma_deep_first_is_a_permutation(listed);
    lists::lemma_deep_first_order(listed);
    assert forall|i: int| 0 <= i < order.len() implies !leads_to(#[trigger] order[i], preserved)
        && was_created(order[i], owned) by {
        assert(order.contains(order[i]));
        assert(listed.contains(order[i]));
        let j = choose|j: int| 0 <= j < listed.len() && listed[j] == order[i];
        assert(kept.contains(kept[j]));
        owned.lemma_filter_pred(p, j);
        owned.lemma_filter_contains_rev(p, kept[j]);
        let k = choose|k: int| 0 <= k < owned.len() && owned[k] == kept[j];
        assert(owned[k].created && owned[k].path@ == order[i]);
    }
}

/// A run that looks ends with the payload's content in every wanted file. One
/// that is there with that content is kept, and any other is written from the
/// payload; what a file holds is its own hash, but for one whose size and time
/// are those it was last recorded with, which holds the recorded one.
pub proof fn lemma_a_wanted_file_ends_as_the_payloads(
    file: DesiredFileView,
    owned: Seq<OwnedFile>,
    install_root: Seq<char>,
    repair: bool,
    payload: Payload,
    machine: Machine,
    at: Seq<char>,
    k: int,
)
    requires
        target::placed_at(install_root, file.path) == Ok::<Seq<char>, ErrorView>(at),
        0 <= k < payload.entries@.len(),
        payload.entries@[k].entry@ == file.entry,
        forall|j: int| 0 <= j < k ==> (#[trigger] payload.entries@[j]).entry@ != file.entry,
    ensures
        ({
            let step = file_step(file, owned, install_root, true, repair, Some(payload), machine);
            let hash = payload.entries@[k].sha256@;
            let op = step->Ok_0.forward[0];
            let keeps = op.kind == OpKind::KeepFile;
            let known = exists|i: int|
                0 <= i < owned.len() && text::lower((#[trigger] owned[i]).path@) == text::lower(
                    file.path,
                );
            &&& step is Ok
            &&& step->Ok_0.forward.len() == 1
            &&& step->Ok_0.removals.len() == 0
            &&& step->Ok_0.fates.len() == 1
            &&& op.target == file.path
            &&& op.expected_size == Some(file.size)
            &&& keeps || (op.kind == OpKind::InstallFile && op.payload_entry == Some(file.entry))
            &&& keeps ==> op.applied_sha256 == Some(hash) && op.previous_existed == Some(true)
            &&& keeps == (step->Ok_0.fates[0] == FileFate::Kept)
            &&& step->Ok_0.findings.len() == if repair && known && !keeps {
                1int
            } else {
                0int
            }
            &&& match machine.file(at) {
                None => !keeps && step->Ok_0.fates[0] == if repair && known {
                    FileFate::RepairedMissing
                } else {
                    FileFate::Added
                },
                Some(seen) => {
                    &&& keeps ==> op.applied_modified == seen.modified
                    &&& !keeps ==> step->Ok_0.fates[0] == if repair && known {
                        FileFate::RepairedChanged
                    } else {
                        FileFate::Replaced
                    }
                    &&& (forall|i: int|
                        0 <= i < owned.len() && text::lower((#[trigger] owned[i]).path@)
                            == text::lower(file.path) ==> !(owned[i].modified is Some
                            && owned[i].modified == seen.modified && owned[i].size == seen.size))
                        ==> (keeps <==> seen.sha256@ == hash)
                    &&& forall|i: int|
                        0 <= i < owned.len() && text::lower((#[trigger] owned[i]).path@)
                            == text::lower(file.path) && owned[i].modified is Some
                            && owned[i].modified == seen.modified && owned[i].size == seen.size && (
                        forall|j: int|
                            i < j < owned.len() ==> text::lower((#[trigger] owned[j]).path@)
                                != text::lower(file.path)) ==> (keeps <==> owned[i].sha256@
                            == hash)
                },
            }
        }),
{
    lists::lemma_first_at(payload.entries@, is_entry(file.entry), k);
    let p = file_named(file.path);
    lists::lemma_last_fits(owned, p);
    let known = exists|i: int|
        0 <= i < owned.len() && text::lower((#[trigger] owned[i]).path@) == text::lower(file.path);
    let record = lists::last(owned, p);
    if record is Some {
        let i = choose|i: int|
            0 <= i < owned.len() && #[trigger] owned[i] == record->Some_0 && p(record->Some_0);
        assert(text::lower(owned[i].path@) == text::lower(file.path));
        assert(known);
    } else if known {
        let i = choose|i: int|
            0 <= i < owned.len() && text::lower((#[trigger] owned[i]).path@) == text::lower(
                file.path,
            );
        assert(!p(owned[i]));
        assert(false);
    }
    if machine.file(at) is Some {
        let seen = machine.file(at)->Some_0;
        assert forall|i: int|
            0 <= i < owned.len() && text::lower((#[trigger] owned[i]).path@) == text::lower(
                file.path,
            ) && (forall|j: int|
                i < j < owned.len() ==> text::lower((#[trigger] owned[j]).path@) != text::lower(
                    file.path,
                )) implies record == Some(owned[i]) by {
            assert forall|j: int| i < j < owned.len() implies !p(#[trigger] owned[j]) by {}
            lists::lemma_last_at(owned, p, i);
        }
    }
}

/// A run that does not look writes every wanted file from the payload.
pub proof fn lemma_a_first_install_writes_every_file(
    file: DesiredFileView,
    owned: Seq<OwnedFile>,
    install_root: Seq<char>,
    repair: bool,
    payload: Option<Payload>,
    machine: Machine,
)
    requires
        target::placed_at(install_root, file.path) is Ok,
    ensures
        ({
            let step = file_step(file, owned, install_root, false, repair, payload, machine);
            let op = step->Ok_0.forward[0];
            &&& step is Ok
            &&& step->Ok_0.forward.len() == 1
            &&& step->Ok_0.removals.len() == 0
            &&& step->Ok_0.findings.len() == 0
            &&& step->Ok_0.fates == seq![FileFate::Added]
            &&& op.kind == OpKind::InstallFile
            &&& op.target == file.path
            &&& op.payload_entry == Some(file.entry)
            &&& op.expected_size == Some(file.size)
        }),
{
}

/// What the payload holds for a file is the hash of its entry.
pub proof fn lemma_what_the_payload_holds(payload: Payload, entry: Seq<char>)
    ensures
        wanted_hash(None, entry) is Err,
        match wanted_hash(Some(payload), entry) {
            Ok(hash) => exists|i: int|
                0 <= i < payload.entries@.len() && (#[trigger] payload.entries@[i]).entry@ == entry
                    && payload.entries@[i].sha256@ == hash,
            Err(_) => forall|i: int|
                0 <= i < payload.entries@.len() ==> (#[trigger] payload.entries@[i]).entry@ != entry,
        },
{
    let p = is_entry(entry);
    lists::lemma_first_fits(payload.entries@, p);
    match lists::first(payload.entries@, p) {
        Some(e) => {
            let i = choose|i: int| 0 <= i < payload.entries@.len() && payload.entries@[i] == e;
            assert(payload.entries@[i].entry@ == entry);
        },
        None => {
            assert forall|i: int| 0 <= i < payload.entries@.len() implies (
            #[trigger] payload.entries@[i]).entry@ != entry by {
                assert(!p(payload.entries@[i]));
            }
        },
    }
}

/// A file that has the size and the time it was recorded with counts as what
/// was recorded; any other counts as what it holds.
pub proof fn lemma_what_a_file_counts_as(seen: FileSeen, record: OwnedFile)
    ensures
        content(seen, None) == seen.sha256@,
        record.modified is None || seen.modified != record.modified || seen.size != record.size
            ==> content(seen, Some(record)) == seen.sha256@,
        record.modified is Some && seen.modified == record.modified && seen.size == record.size
            ==> content(seen, Some(record)) == record.sha256@,
{
}

}
