//! The shortcut resource: a `.lnk` in one of the scope's shortcut folders —
//! Start Menu Programs, desktop, Startup, and for user scope the Send To
//! folder — pointing into the install root, or a `.url` Internet shortcut
//! opening a web page. Ownership is by link path; removal is conservative —
//! only a link whose target still resolves into the install root (or whose
//! URL is still the recorded one) is removed. A package's own subfolder of a
//! shortcut folder goes with the last link in it: removing a link removes the
//! folders it leaves empty, never the scope's shortcut folder itself and never
//! a folder anything else is still in.

use vstd::prelude::*;

use crate::error::{Error, ErrorView};
use crate::identity;
use crate::lists;
use crate::machine::{Link, LinkView, Machine};
use crate::metadata::{Metadata, OptionView, Scope, Shortcut, ShortcutLocation};
use crate::plan::target;
use crate::report;
use crate::report::{Finding, FindingView};
use crate::resource::predicate;
use crate::resource::predicate::Options;
use crate::scope;
use crate::scope::Locations;
use crate::text;

verus! {

/// A link the desired state wants.
#[derive(Debug, PartialEq, Eq)]
pub struct DesiredShortcut {
    /// Absolute path of the `.lnk` or `.url`.
    pub path: String,
    pub link: Link,
}

/// What a [`DesiredShortcut`] is.
#[verifier::ext_equal]
pub struct DesiredShortcutView {
    pub path: Seq<char>,
    pub link: LinkView,
}

impl View for DesiredShortcut {
    type V = DesiredShortcutView;

    open spec fn view(&self) -> DesiredShortcutView {
        DesiredShortcutView { path: self.path@, link: self.link@ }
    }
}

/// The folder a declared shortcut goes into.
pub open spec fn folder_for(shortcut: Shortcut, base: Seq<char>) -> Seq<char> {
    if shortcut.folder@.len() == 0 {
        base
    } else {
        target::joined(base, target::relative(shortcut.folder@))
    }
}

/// Where a declared install-relative path lies, or `default` where none is
/// declared.
pub open spec fn declared_or(
    declared: Seq<char>,
    install_root: Seq<char>,
    default: Seq<char>,
) -> Result<Seq<char>, ErrorView> {
    if declared.len() == 0 {
        Ok(default)
    } else {
        target::placed_at(install_root, target::relative(declared))
    }
}

/// The Internet shortcut a declaration means.
pub open spec fn url_link(shortcut: Shortcut, folder: Seq<char>, install_root: Seq<char>) -> Result<
    DesiredShortcutView,
    ErrorView,
> {
    match declared_or(shortcut.icon@, install_root, Seq::<char>::empty()) {
        Err(e) => Err(e),
        Ok(icon) => Ok(
            DesiredShortcutView {
                path: target::joined(folder, shortcut.name@ + ".url"@),
                link: LinkView {
                    target: shortcut.url@,
                    arguments: Seq::<char>::empty(),
                    description: Seq::<char>::empty(),
                    icon,
                    working_directory: Seq::<char>::empty(),
                    app_user_model_id: Seq::<char>::empty(),
                },
            },
        ),
    }
}

/// The folder a program starts in unless its shortcut says otherwise: its
/// own.
pub open spec fn own_folder(program: Seq<char>, install_root: Seq<char>) -> Seq<char> {
    match target::parent_folder(program) {
        Some(folder) => folder,
        None => install_root,
    }
}

/// The shell link a declaration means.
pub open spec fn shell_link(
    shortcut: Shortcut,
    folder: Seq<char>,
    install_root: Seq<char>,
) -> Result<DesiredShortcutView, ErrorView> {
    match target::placed_at(install_root, target::relative(shortcut.target@)) {
        Err(e) => Err(e),
        Ok(program) => match declared_or(shortcut.icon@, install_root, program) {
            Err(e) => Err(e),
            Ok(icon) => match declared_or(
                shortcut.working_directory@,
                install_root,
                own_folder(program, install_root),
            ) {
                Err(e) => Err(e),
                Ok(working_directory) => Ok(
                    DesiredShortcutView {
                        path: target::joined(folder, shortcut.name@ + ".lnk"@),
                        link: LinkView {
                            target: program,
                            arguments: shortcut.arguments@,
                            description: shortcut.description@,
                            icon,
                            working_directory,
                            app_user_model_id: shortcut.app_user_model_id@,
                        },
                    },
                ),
            },
        },
    }
}

/// What one declared shortcut comes to: nothing where the options disable it,
/// a finding where the scope has no such folder, else a link.
pub open spec fn shortcut_step(
    shortcut: Shortcut,
    options: Map<Seq<char>, OptionView>,
    scope: Scope,
    install_root: Seq<char>,
    machine: Machine,
) -> Result<(Seq<DesiredShortcutView>, Seq<FindingView>), ErrorView> {
    let none = Seq::<DesiredShortcutView>::empty();
    let silent = Seq::<FindingView>::empty();
    if !predicate::wanted(shortcut.when, shortcut.option@, options) {
        Ok((none, silent))
    } else {
        match scope::location_folder(scope, shortcut.location) {
            None => Ok(
                (
                    none,
                    seq![
                        report::finding(
                            "shortcut_location_unavailable"@,
                            shortcut.name@ + ": "@ + scope.name() + " scope has no such folder"@,
                        ),
                    ],
                ),
            ),
            Some(folder) => match identity::template(folder, machine) {
                Err(e) => Err(e),
                Ok(base) => match if shortcut.url@.len() > 0 {
                    url_link(shortcut, folder_for(shortcut, base), install_root)
                } else {
                    shell_link(shortcut, folder_for(shortcut, base), install_root)
                } {
                    Err(e) => Err(e),
                    Ok(link) => Ok((seq![link], silent)),
                },
            },
        }
    }
}

/// What each declared shortcut comes to, in declaration order.
pub open spec fn shortcut_steps(
    metadata: Metadata,
    options: Map<Seq<char>, OptionView>,
    scope: Scope,
    install_root: Seq<char>,
    machine: Machine,
) -> Seq<Result<(Seq<DesiredShortcutView>, Seq<FindingView>), ErrorView>> {
    metadata.shortcuts@.map_values(
        |s: Shortcut| shortcut_step(s, options, scope, install_root, machine),
    )
}

fn resolve_or(declared: &str, install_root: &str, default: &str) -> (r: Result<String, Error>)
    ensures
        target::agrees(r, declared_or(declared@, install_root@, default@)),
{
    if declared.is_empty() {
        Ok(text::owned(default))
    } else {
        let relative = target::to_relative(declared);
        target::absolute(install_root, relative.as_str())
    }
}

fn resolve_url(shortcut: &Shortcut, folder: &str, install_root: &str) -> (r: Result<
    DesiredShortcut,
    Error,
>)
    ensures
        match (r, url_link(*shortcut, folder@, install_root@)) {
            (Ok(a), Ok(b)) => a@ == b,
            (Err(a), Err(b)) => a@ == b,
            _ => false,
        },
{
    proof {
        reveal_strlit("");
        assert(""@ =~= Seq::<char>::empty());
    }
    let icon = match resolve_or(shortcut.icon.as_str(), install_root, "") {
        Err(e) => return Err(e),
        Ok(icon) => icon,
    };
    let file = text::cat2(shortcut.name.as_str(), ".url");
    let out = DesiredShortcut {
        path: target::join(folder, file.as_str()),
        link: Link {
            target: shortcut.url.clone(),
            arguments: String::new(),
            description: String::new(),
            icon,
            working_directory: String::new(),
            app_user_model_id: String::new(),
        },
    };
    Ok(out)
}

fn resolve_link(shortcut: &Shortcut, folder: &str, install_root: &str) -> (r: Result<
    DesiredShortcut,
    Error,
>)
    ensures
        match (r, shell_link(*shortcut, folder@, install_root@)) {
            (Ok(a), Ok(b)) => a@ == b,
            (Err(a), Err(b)) => a@ == b,
            _ => false,
        },
{
    let relative = target::to_relative(shortcut.target.as_str());
    let program = match target::absolute(install_root, relative.as_str()) {
        Err(e) => return Err(e),
        Ok(program) => program,
    };
    let icon = match resolve_or(shortcut.icon.as_str(), install_root, program.as_str()) {
        Err(e) => return Err(e),
        Ok(icon) => icon,
    };
    let own = match target::parent_folder_of(program.as_str()) {
        Some(folder) => folder,
        None => text::owned(install_root),
    };
    let working_directory = match resolve_or(
        shortcut.working_directory.as_str(),
        install_root,
        own.as_str(),
    ) {
        Err(e) => return Err(e),
        Ok(directory) => directory,
    };
    let file = text::cat2(shortcut.name.as_str(), ".lnk");
    let out = DesiredShortcut {
        path: target::join(folder, file.as_str()),
        link: Link {
            target: program,
            arguments: shortcut.arguments.clone(),
            description: shortcut.description.clone(),
            icon,
            working_directory,
            app_user_model_id: shortcut.app_user_model_id.clone(),
        },
    };
    Ok(out)
}

/// The shortcuts the effective options enable, resolved to absolute paths,
/// and a finding for each one whose folder this scope does not have.
pub fn desired(
    metadata: &Metadata,
    options: &Options,
    locations: &Locations,
    install_root: &str,
    machine: &Machine,
) -> (r: Result<(Vec<DesiredShortcut>, Vec<Finding>), Error>)
    requires
        locations.well_formed(),
    ensures
        match (
            r,
            lists::gathered(
                shortcut_steps(*metadata, options@, locations.scope, install_root@, *machine),
            ),
        ) {
            (Ok((links, findings)), Ok((a, b))) => text::views(links@) == a && text::views(
                findings@,
            ) == b,
            (Err(a), Err(b)) => a@ == b,
            _ => false,
        },
{
    let ghost steps = shortcut_steps(
        *metadata,
        options@,
        locations.scope,
        install_root@,
        *machine,
    );
    let mut out: Vec<DesiredShortcut> = Vec::new();
    let mut findings: Vec<Finding> = Vec::new();
    let mut i: usize = 0;
    proof {
        assert(steps.take(0) =~= Seq::empty());
        assert(text::views(out@) =~= Seq::<DesiredShortcutView>::empty());
        assert(text::views(findings@) =~= Seq::<FindingView>::empty());
    }
    while i < metadata.shortcuts.len()
        invariant
            i <= metadata.shortcuts@.len(),
            locations.well_formed(),
            steps == shortcut_steps(
                *metadata,
                options@,
                locations.scope,
                install_root@,
                *machine,
            ),
            lists::gathered(steps.take(i as int)) == Ok::<
                (Seq<DesiredShortcutView>, Seq<FindingView>),
                ErrorView,
            >((text::views(out@), text::views(findings@))),
        decreases metadata.shortcuts@.len() - i,
    {
        let shortcut = &metadata.shortcuts[i];
        let ghost links = text::views(out@);
        let ghost said = text::views(findings@);
        proof {
            lists::lemma_gathered_take(steps, i as int);
            assert(steps[i as int] == shortcut_step(
                *shortcut,
                options@,
                locations.scope,
                install_root@,
                *machine,
            ));
            assert(links + Seq::<DesiredShortcutView>::empty() =~= links);
            assert(said + Seq::<FindingView>::empty() =~= said);
        }
        i = i + 1;
        if !predicate::enabled(shortcut.when.as_ref(), shortcut.option.as_str(), options) {
            continue;
        }
        let folder_template = match locations.shortcut_folder(location_of(shortcut)) {
            None => {
                let what = text::cat4(
                    shortcut.name.as_str(),
                    ": ",
                    locations.scope.as_str(),
                    " scope has no such folder",
                );
                let finding = Finding::named("shortcut_location_unavailable", what.as_str());
                proof {
                    text::lemma_views_push(findings@, finding);
                    assert(said + seq![finding@] =~= said.push(finding@));
                }
                findings.push(finding);
                continue;
            },
            Some(folder_template) => folder_template,
        };
        let base = match identity::expand_template(folder_template, machine) {
            Err(e) => {
                proof {
                    lists::lemma_gathered_fails(steps, i as int);
                }
                return Err(e);
            },
            Ok(base) => base,
        };
        let folder = if shortcut.folder.as_str().is_empty() {
            base
        } else {
            let sub = target::to_relative(shortcut.folder.as_str());
            target::join(base.as_str(), sub.as_str())
        };
        let resolved = if !shortcut.url.as_str().is_empty() {
            resolve_url(shortcut, folder.as_str(), install_root)
        } else {
            resolve_link(shortcut, folder.as_str(), install_root)
        };
        match resolved {
            Err(e) => {
                proof {
                    lists::lemma_gathered_fails(steps, i as int);
                }
                return Err(e);
            },
            Ok(link) => {
                proof {
                    text::lemma_views_push(out@, link);
                    assert(links + seq![link@] =~= links.push(link@));
                }
                out.push(link);
            },
        }
    }
    assert(steps.take(i as int) =~= steps);
    Ok((out, findings))
}

/// The location a declared shortcut names; a declaration that names none is
/// the Start Menu, which is where a shortcut with no better idea belongs.
pub fn location_of(shortcut: &Shortcut) -> (r: ShortcutLocation)
    ensures
        r == shortcut.location,
{
    shortcut.location
}

/// Whether a path is another or lies below it.
pub open spec fn is_at_or_below(at: Seq<char>, root: Seq<char>) -> bool {
    at == root || (root + "\\"@).is_prefix_of(at)
}

/// Whether a link target lies inside the install root.
pub open spec fn points_inside(link_target: Seq<char>, install_root: Seq<char>) -> bool {
    is_at_or_below(
        text::lowercase(text::trim(link_target)),
        text::lowercase(text::trim_end(install_root, '\\')),
    )
}

/// Whether a link target lies inside the install root; of ASCII paths the case
/// is all that does not count.
pub fn targets_install_root(link_target: &str, install_root: &str) -> (r: bool)
    ensures
        r == points_inside(link_target@, install_root@),
        text::is_ascii(text::trim(link_target@)) && text::is_ascii(
            text::trim_end(install_root@, '\\'),
        ) ==> r == is_at_or_below(
            text::lower(text::trim(link_target@)),
            text::lower(text::trim_end(install_root@, '\\')),
        ),
{
    let trimmed = text::trim_end_of(install_root, '\\');
    let root = text::lowercase_of(trimmed.as_str());
    let trimmed = text::trim_of(link_target);
    let at = text::lowercase_of(trimmed.as_str());
    if at == root {
        return true;
    }
    let prefix = text::cat2(root.as_str(), "\\");
    text::starts_with(at.as_str(), prefix.as_str())
}

/// Whether a path names an Internet shortcut.
pub open spec fn is_url(path: Seq<char>) -> bool {
    ".url"@.is_suffix_of(text::lower(path))
}

/// Whether a path names an Internet shortcut.
pub fn is_url_shortcut(path: &str) -> (r: bool)
    ensures
        r == is_url(path@),
{
    let lower = text::lower_of(path);
    text::ends_with(lower.as_str(), ".url")
}

/// Whether an owned link may be removed.
pub open spec fn may_remove(
    link_path: Seq<char>,
    current: LinkView,
    recorded_target: Seq<char>,
    install_root: Seq<char>,
) -> bool {
    if is_url(link_path) {
        text::lower(current.target) == text::lower(recorded_target)
    } else {
        points_inside(current.target, install_root)
    }
}

/// Whether an owned link may be removed: a shell link still pointing into
/// the install root, or an Internet shortcut still opening the recorded
/// URL. Anything else was changed by someone and stays.
pub fn removable(link_path: &str, current: &Link, recorded_target: &str, install_root: &str) -> (r:
    bool)
    ensures
        r == may_remove(link_path@, current@, recorded_target@, install_root@),
{
    if is_url_shortcut(link_path) {
        text::same_folded(current.target.as_str(), recorded_target)
    } else {
        targets_install_root(current.target.as_str(), install_root)
    }
}

/// Whether a link on disk is the one wanted.
pub open spec fn is_wanted(current: LinkView, wanted: LinkView) -> bool {
    &&& text::lower(current.target) == text::lower(wanted.target)
    &&& current.arguments == wanted.arguments
    &&& current.description == wanted.description
    &&& text::lower(current.icon) == text::lower(wanted.icon)
    &&& text::lower(current.working_directory) == text::lower(wanted.working_directory)
    &&& current.app_user_model_id == wanted.app_user_model_id
}

/// Whether a link on disk is the one the desired state wants. The working
/// directory and the AppUserModelID are compared too, so a link written
/// before either was declared is rewritten rather than kept.
pub fn matches(current: &Link, desired: &Link) -> (r: bool)
    ensures
        r == is_wanted(current@, desired@),
{
    text::same_folded(current.target.as_str(), desired.target.as_str()) && current.arguments
        == desired.arguments && current.description == desired.description && text::same_folded(
        current.icon.as_str(),
        desired.icon.as_str(),
    ) && text::same_folded(
        current.working_directory.as_str(),
        desired.working_directory.as_str(),
    ) && current.app_user_model_id == desired.app_user_model_id
}

/// A folder without its trailing separators, in comparison form.
pub open spec fn folder_form(folder: Seq<char>) -> Seq<char> {
    text::lower(text::trim_end(folder, '\\'))
}

/// Whether a folder is one of `roots`.
pub open spec fn is_root(folder: Seq<char>, roots: Seq<String>) -> bool {
    exists|i: int| 0 <= i < roots.len() && folder_form(#[trigger] roots[i]@) == folder_form(folder)
}

fn same_folder(a: &str, b: &str) -> (r: bool)
    ensures
        r == (folder_form(a@) == folder_form(b@)),
{
    let x = text::trim_end_of(a, '\\');
    let y = text::trim_end_of(b, '\\');
    text::same_folded(x.as_str(), y.as_str())
}

/// The folder to look at once `path` is gone: the one it lies in, when that
/// is inside the scope's shortcut folders and not one of them.
pub open spec fn next_folder(path: Seq<char>, roots: Seq<String>) -> Option<Seq<char>> {
    match target::parent_folder(path) {
        Some(folder) => if !is_root(folder, roots) && scope::inside(folder, roots) {
            Some(folder)
        } else {
            None
        },
        None => None,
    }
}

/// The folder to look at once `path` is gone.
pub fn next_emptied(path: &str, roots: &Vec<String>) -> (r: Option<String>)
    ensures
        text::option_view(r) == next_folder(path@, roots@),
{
    match target::parent_folder_of(path) {
        None => None,
        Some(folder) => {
            let mut i: usize = 0;
            while i < roots.len()
                invariant
                    i <= roots@.len(),
                    target::parent_folder(path@) == Some(folder@),
                    forall|j: int|
                        0 <= j < i ==> folder_form(#[trigger] roots@[j]@) != folder_form(folder@),
                decreases roots@.len() - i,
            {
                if same_folder(roots[i].as_str(), folder.as_str()) {
                    return None;
                }
                i = i + 1;
            }
            if scope::is_inside(folder.as_str(), roots) {
                Some(folder)
            } else {
                None
            }
        },
    }
}

/// The folders that go with a link, from its own folder upwards: each is the
/// next one to look at, and one the machine can remove — nothing else is in
/// it, and it is no junction.
pub open spec fn emptied(
    path: Seq<char>,
    roots: Seq<String>,
    removable: Seq<String>,
) -> Seq<Seq<char>>
    decreases path.len(),
{
    match next_folder(path, roots) {
        None => Seq::<Seq<char>>::empty(),
        Some(folder) => if folder.len() < path.len() && text::views(removable).contains(folder) {
            seq![folder] + emptied(folder, roots, removable)
        } else {
            Seq::<Seq<char>>::empty()
        },
    }
}

/// The folders a removed link takes with it, from the link's own folder
/// upwards. The walk stops at any of the scope's shortcut folders (`roots`)
/// — which it never removes, Startup included although it lies inside the
/// Start Menu's Programs — at a folder outside them, and at the first folder
/// that is not `removable`: one that still holds anything, a junction, or one
/// that cannot be removed. So a folder several products share stays until the
/// last of their links is gone.
pub fn remove_emptied_folders(link: &str, roots: &Vec<String>, removable: &Vec<String>) -> (r: Vec<
    String,
>)
    ensures
        text::views(r@) == emptied(link@, roots@, removable@),
{
    let mut out: Vec<String> = Vec::new();
    let mut at = text::owned(link);
    let mut length: usize = text::chars_of(link).len();
    assert(text::views(out@) =~= Seq::<Seq<char>>::empty());
    assert(text::views(out@) + emptied(at@, roots@, removable@) =~= emptied(
        link@,
        roots@,
        removable@,
    ));
    loop
        invariant
            length == at@.len(),
            text::views(out@) + emptied(at@, roots@, removable@) == emptied(
                link@,
                roots@,
                removable@,
            ),
        decreases length,
    {
        let ghost seen = text::views(out@);
        match next_emptied(at.as_str(), roots) {
            None => {
                assert(seen + Seq::<Seq<char>>::empty() =~= seen);
                return out;
            },
            Some(folder) => {
                let shorter = text::chars_of(folder.as_str()).len();
                if shorter >= length || !text::listed(removable, folder.as_str()) {
                    assert(seen + Seq::<Seq<char>>::empty() =~= seen);
                    return out;
                }
                proof {
                    text::lemma_views_push(out@, folder);
                    assert(seen.push(folder@) + emptied(folder@, roots@, removable@) =~= seen + (
                    seq![folder@] + emptied(folder@, roots@, removable@)));
                }
                at = folder.clone();
                length = shorter;
                out.push(folder);
            },
        }
    }
}

/// No folder that goes with a link is one of the scope's own, and each lies
/// inside them.
pub proof fn lemma_emptied_folders_are_the_packages_own(
    path: Seq<char>,
    roots: Seq<String>,
    removable: Seq<String>,
    i: int,
)
    requires
        0 <= i < emptied(path, roots, removable).len(),
    ensures
        !is_root(emptied(path, roots, removable)[i], roots),
        scope::inside(emptied(path, roots, removable)[i], roots),
        text::views(removable).contains(emptied(path, roots, removable)[i]),
    decreases path.len(),
{
    let folder = next_folder(path, roots).unwrap();
    if i > 0 {
        lemma_emptied_folders_are_the_packages_own(folder, roots, removable, i - 1);
    }
}

/// Whether a stored text is an absolute shortcut path.
pub open spec fn is_link_path(stored: Seq<char>) -> bool {
    target::is_absolute(stored) && (".lnk"@.is_suffix_of(text::lower(stored)) || ".url"@.is_suffix_of(
        text::lower(stored),
    ))
}

/// What a text that is no shortcut path is refused with.
pub open spec fn not_a_link(stored: Seq<char>) -> ErrorView {
    ErrorView {
        code: "journal_inconsistent"@,
        message: text::quoted(stored) + " is not an absolute .lnk or .url path"@,
    }
}

/// The link path as the journal stores it, checked to be absolute and to
/// name a shell link or an Internet shortcut.
pub fn link_path(stored: &str) -> (r: Result<String, Error>)
    ensures
        match r {
            Ok(path) => is_link_path(stored@) && path@ == stored@,
            Err(e) => !is_link_path(stored@) && e@ == not_a_link(stored@),
        },
{
    let lower = text::lower_of(stored);
    if target::is_absolute_path(stored) && (text::ends_with(lower.as_str(), ".lnk") || text::ends_with(
        lower.as_str(),
        ".url",
    )) {
        return Ok(text::owned(stored));
    }
    let shown = text::quoted_of(stored);
    let message = text::cat2(shown.as_str(), " is not an absolute .lnk or .url path");
    Err(Error::new("journal_inconsistent", message.as_str()))
}

/// The link a declared program shortcut resolves to starts the declared
/// program with the declared arguments, described and identified as declared,
/// in the declared folder; its icon and its working directory are the declared
/// ones, or the program's own.
pub proof fn lemma_a_program_shortcut_is_as_declared(
    shortcut: Shortcut,
    folder: Seq<char>,
    install_root: Seq<char>,
)
    requires
        shell_link(shortcut, folder, install_root) is Ok,
    ensures
        ({
            let found = shell_link(shortcut, folder, install_root)->Ok_0;
            let link = found.link;
            &&& target::placed_at(
                install_root,
                text::replaced(shortcut.target@, '/', '\\'),
            ) == Ok::<Seq<char>, ErrorView>(link.target)
            &&& link.arguments == shortcut.arguments@
            &&& link.description == shortcut.description@
            &&& link.app_user_model_id == shortcut.app_user_model_id@
            &&& shortcut.icon@.len() == 0 ==> link.icon == link.target
            &&& shortcut.icon@.len() > 0 ==> target::placed_at(
                install_root,
                text::replaced(shortcut.icon@, '/', '\\'),
            ) == Ok::<Seq<char>, ErrorView>(link.icon)
            &&& shortcut.working_directory@.len() == 0 && target::parent_folder(link.target) is Some
                ==> target::parent_folder(link.target) == Some(link.working_directory)
            &&& shortcut.working_directory@.len() > 0 ==> target::placed_at(
                install_root,
                text::replaced(shortcut.working_directory@, '/', '\\'),
            ) == Ok::<Seq<char>, ErrorView>(link.working_directory)
            &&& found.path == target::joined(folder, shortcut.name@ + ".lnk"@)
        }),
{
}

/// The link a declared web shortcut resolves to opens the declared address, in
/// the declared folder, and says nothing else but its icon.
pub proof fn lemma_a_web_shortcut_is_as_declared(
    shortcut: Shortcut,
    folder: Seq<char>,
    install_root: Seq<char>,
)
    requires
        url_link(shortcut, folder, install_root) is Ok,
    ensures
        ({
            let found = url_link(shortcut, folder, install_root)->Ok_0;
            let link = found.link;
            &&& link.target == shortcut.url@
            &&& link.arguments.len() == 0
            &&& link.description.len() == 0
            &&& link.working_directory.len() == 0
            &&& link.app_user_model_id.len() == 0
            &&& shortcut.icon@.len() == 0 ==> link.icon.len() == 0
            &&& shortcut.icon@.len() > 0 ==> target::placed_at(
                install_root,
                text::replaced(shortcut.icon@, '/', '\\'),
            ) == Ok::<Seq<char>, ErrorView>(link.icon)
            &&& found.path == target::joined(folder, shortcut.name@ + ".url"@)
            &&& is_url(shortcut.name@ + ".url"@)
        }),
{
    reveal_strlit(".url");
    let path = shortcut.name@ + ".url"@;
    text::lemma_lower_concat(shortcut.name@, ".url"@);
    assert(text::lower(".url"@) =~= ".url"@);
    let low = text::lower(path);
    assert(low.skip(low.len() - ".url"@.len()) =~= ".url"@);
    assert(low.subrange(low.len() - ".url"@.len(), low.len() as int) =~= ".url"@);
}

/// A declared shortcut the options want and whose folder the scope has comes
/// to exactly one link: an address to a web shortcut, anything else to a
/// program's. One they do not want comes to nothing, and one without a folder
/// to nothing but a finding.
pub proof fn lemma_a_declared_shortcut_comes_to_one_link(
    shortcut: Shortcut,
    options: Map<Seq<char>, OptionView>,
    scope: Scope,
    install_root: Seq<char>,
    machine: Machine,
)
    requires
        shortcut_step(shortcut, options, scope, install_root, machine) is Ok,
    ensures
        ({
            let (links, found) = shortcut_step(shortcut, options, scope, install_root, machine)->Ok_0;
            let wanted = predicate::wanted(shortcut.when, shortcut.option@, options);
            let place = scope::location_folder(scope, shortcut.location);
            &&& links.len() == if wanted && place is Some {
                1int
            } else {
                0int
            }
            &&& found.len() == if wanted && place is None {
                1int
            } else {
                0int
            }
            &&& links.len() == 1 ==> {
                let base = identity::template(place->Some_0, machine)->Ok_0;
                let folder = if shortcut.folder@.len() == 0 {
                    base
                } else {
                    target::joined(base, text::replaced(shortcut.folder@, '/', '\\'))
                };
                &&& shortcut.url@.len() > 0 ==> url_link(shortcut, folder, install_root) == Ok::<
                    DesiredShortcutView,
                    ErrorView,
                >(links[0])
                &&& shortcut.url@.len() == 0 ==> shell_link(shortcut, folder, install_root) == Ok::<
                    DesiredShortcutView,
                    ErrorView,
                >(links[0])
            }
            &&& found.len() == 1 ==> found[0].code == "shortcut_location_unavailable"@
        }),
{
}

/// When a shortcut may go: a web shortcut where it still leads where it was
/// made to, any other where it leads to the install root or below it.
pub proof fn lemma_when_a_shortcut_may_go(
    path: Seq<char>,
    current: LinkView,
    recorded: Seq<char>,
    root: Seq<char>,
)
    ensures
        ".url"@.is_suffix_of(text::lower(path)) ==> (may_remove(path, current, recorded, root)
            <==> text::lower(current.target) == text::lower(recorded)),
        !".url"@.is_suffix_of(text::lower(path)) ==> (may_remove(path, current, recorded, root)
            <==> {
            let at = text::lowercase(text::trim(current.target));
            let top = text::lowercase(text::trim_end(root, '\\'));
            at == top || (at.len() > top.len() && at.take(top.len() as int) == top && at[
                top.len() as int
            ] == '\\')
        }),
{
    reveal_strlit("\\");
    assert("\\"@ =~= seq!['\\']);
    let at = text::lowercase(text::trim(current.target));
    let top = text::lowercase(text::trim_end(root, '\\'));
    let n = top.len() as int;
    if (top + "\\"@).is_prefix_of(at) {
        assert(at.take(n + 1) =~= top + seq!['\\']);
        assert(at.take(n + 1)[n] == at[n]);
        assert(at.take(n) =~= top) by {
            assert forall|i: int| 0 <= i < n implies at[i] == top[i] by {
                assert(at.take(n + 1)[i] == at[i]);
            }
        }
    }
    if at.len() > n && at.take(n) == top && at[n] == '\\' {
        assert(at.take(n + 1) =~= top + seq!['\\']) by {
            assert forall|i: int| 0 <= i < n implies at[i] == top[i] by {
                assert(at.take(n)[i] == at[i]);
            }
        }
    }
}

/// A shortcut is as wanted where everything it says is: paths without regard
/// to case, and the texts to the letter.
pub proof fn lemma_when_a_shortcut_is_as_wanted(a: LinkView, b: LinkView)
    ensures
        is_wanted(a, a),
        is_wanted(a, b) <==> is_wanted(b, a),
        a.arguments != b.arguments ==> !is_wanted(a, b),
        a.description != b.description ==> !is_wanted(a, b),
        a.app_user_model_id != b.app_user_model_id ==> !is_wanted(a, b),
        text::lower(a.target) != text::lower(b.target) ==> !is_wanted(a, b),
        text::lower(a.icon) != text::lower(b.icon) ==> !is_wanted(a, b),
        text::lower(a.working_directory) != text::lower(b.working_directory) ==> !is_wanted(a, b),
        is_wanted(a, b) <==> a.arguments == b.arguments && a.description == b.description
            && a.app_user_model_id == b.app_user_model_id && text::lower(a.target) == text::lower(
            b.target,
        ) && text::lower(a.icon) == text::lower(b.icon) && text::lower(a.working_directory)
            == text::lower(b.working_directory),
{
}

}
