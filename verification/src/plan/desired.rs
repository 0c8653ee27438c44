//! The state the metadata and the effective options want on this machine.

use vstd::prelude::*;

use crate::error::{Error, ErrorView};
use crate::lists;
use crate::machine::{KeyPath, KeyView, Machine, Rule, RuleView};
use crate::metadata;
use crate::metadata::{
    Directory, File, InstallOption, Metadata, OptionValue, OptionView, PathEntry, Scope,
};
use crate::plan::files;
use crate::plan::files::{DesiredFile, DesiredFileView};
use crate::plan::target;
use crate::report::{Finding, FindingView};
use crate::resource::environment;
use crate::resource::environment::{DesiredVariable, DesiredVariableView};
use crate::resource::firewall;
use crate::resource::integration;
use crate::resource::integration::{Integration, IntegrationView};
use crate::resource::path;
use crate::resource::predicate;
use crate::resource::predicate::{OptionEntry, Options};
use crate::resource::registration;
use crate::resource::registry;
use crate::resource::registry::{DesiredValue, DesiredValueView};
use crate::resource::shortcut;
use crate::resource::shortcut::{DesiredShortcut, DesiredShortcutView};
use crate::scope;
use crate::scope::{Locations, LocationsView};
use crate::state::installation::Owned;
use crate::text;

verus! {

/// What an explicit option the package does not declare is refused with.
pub open spec fn unknown_option(metadata: Metadata, name: Seq<char>) -> ErrorView {
    ErrorView {
        code: "option_unknown"@,
        message: metadata.package.name@ + " declares no option "@ + text::quoted(name),
    }
}

/// What a value an option does not take is refused with.
pub open spec fn invalid_value(option: InstallOption, name: Seq<char>, given: Seq<char>) -> ErrorView {
    ErrorView {
        code: "option_value_invalid"@,
        message: "option "@ + name + " takes "@ + text::join(metadata::accepted(option), ", "@)
            + ", not "@ + text::quoted(given),
    }
}

/// What an explicit option is refused with.
pub open spec fn refusal(metadata: Metadata, entry: OptionEntry) -> Option<ErrorView> {
    match metadata.declared(entry.name@) {
        None => Some(unknown_option(metadata, entry.name@)),
        Some(option) => match metadata::value_from(option, entry.value@.text()) {
            None => Some(invalid_value(option, entry.name@, entry.value@.text())),
            Some(_) => None,
        },
    }
}

/// Holds of the explicit options that are refused.
pub open spec fn is_refused(metadata: Metadata) -> spec_fn(OptionEntry) -> bool {
    |e: OptionEntry| refusal(metadata, e) is Some
}

/// The value of a name in a map of options.
pub open spec fn value_in(options: Map<Seq<char>, OptionView>, name: Seq<char>) -> Option<
    OptionView,
> {
    if options.dom().contains(name) {
        Some(options[name])
    } else {
        None
    }
}

/// The effective value of one declared option: an explicit value wins, then
/// the recorded one, then the declared default. A recorded value the option
/// no longer takes falls back to the default.
pub open spec fn effective_value(
    option: InstallOption,
    recorded: Map<Seq<char>, OptionView>,
    explicit: Map<Seq<char>, OptionView>,
) -> OptionView {
    let name = text::lower(option.name@);
    let given = match value_in(explicit, name) {
        Some(value) => Some(value),
        None => value_in(recorded, name),
    };
    match given {
        Some(value) => match metadata::value_from(option, value.text()) {
            Some(taken) => taken,
            None => metadata::default_of(option),
        },
        None => metadata::default_of(option),
    }
}

/// The effective value of every declared option.
pub open spec fn effective(
    options: Seq<InstallOption>,
    recorded: Map<Seq<char>, OptionView>,
    explicit: Map<Seq<char>, OptionView>,
) -> Map<Seq<char>, OptionView>
    decreases options.len(),
{
    if options.len() == 0 {
        Map::empty()
    } else {
        effective(options.drop_last(), recorded, explicit).insert(
            text::lower(options.last().name@),
            effective_value(options.last(), recorded, explicit),
        )
    }
}

fn refuse(metadata: &Metadata, entry: &OptionEntry) -> (r: Option<Error>)
    ensures
        text::option_view(r) == refusal(*metadata, *entry),
{
    let name = entry.name.as_str();
    match metadata.option(name) {
        None => {
            let shown = text::quoted_of(name);
            let message = text::cat3(
                metadata.package.name.as_str(),
                " declares no option ",
                shown.as_str(),
            );
            Some(Error::new("option_unknown", message.as_str()))
        },
        Some(option) => {
            let given = entry.value.as_text();
            match OptionValue::from_text(option, given.as_str()) {
                Some(_) => None,
                None => {
                    let accepted = option.accepted_values();
                    let accepted = text::join_of(&accepted, ", ");
                    let shown = text::quoted_of(given.as_str());
                    let message = text::cat6(
                        "option ",
                        name,
                        " takes ",
                        accepted.as_str(),
                        ", not ",
                        shown.as_str(),
                    );
                    Some(Error::new("option_value_invalid", message.as_str()))
                },
            }
        },
    }
}

fn effective_value_of(option: &InstallOption, recorded: &Options, explicit: &Options) -> (r:
    OptionValue)
    ensures
        r@ == effective_value(*option, recorded@, explicit@),
{
    let name = text::lower_of(option.name.as_str());
    let given = match explicit.get(name.as_str()) {
        Some(value) => Some(value),
        None => recorded.get(name.as_str()),
    };
    match given {
        Some(value) => {
            let spelled = value.as_text();
            match OptionValue::from_text(option, spelled.as_str()) {
                Some(taken) => taken,
                None => option.default_value(),
            }
        },
        None => option.default_value(),
    }
}

/// The effective value of every declared option: an explicit value wins,
/// then the recorded one, then the declared default. An explicit option the
/// package does not declare, or a value the option does not take, is refused
/// — the first of them in the order of the names; a recorded value the option
/// no longer takes — a choice a newer package dropped — falls back to the
/// default.
pub fn effective_options(metadata: &Metadata, recorded: &Options, explicit: &Options) -> (r: Result<
    Options,
    Error,
>)
    ensures
        match lists::first(explicit.listed(), is_refused(*metadata)) {
            Some(entry) => r matches Err(e) && Some(e@) == refusal(*metadata, entry),
            None => r matches Ok(o) && o@ == effective(metadata.options@, recorded@, explicit@),
        },
{
    let entries = explicit.entries();
    let mut i: usize = 0;
    while i < entries.len()
        invariant
            i <= entries@.len(),
            entries@ == explicit.listed(),
            forall|j: int| 0 <= j < i ==> !is_refused(*metadata)(#[trigger] entries@[j]),
        decreases entries@.len() - i,
    {
        match refuse(metadata, &entries[i]) {
            Some(e) => {
                proof {
                    lists::lemma_first_at(entries@, is_refused(*metadata), i as int);
                }
                return Err(e);
            },
            None => {},
        }
        i = i + 1;
    }
    proof {
        lists::lemma_first_none(entries@, is_refused(*metadata));
    }
    let ghost all = metadata.options@;
    let mut out = Options::new();
    let mut k: usize = 0;
    assert(all.take(0) =~= Seq::<InstallOption>::empty());
    while k < metadata.options.len()
        invariant
            k <= metadata.options@.len(),
            all == metadata.options@,
            out@ == effective(all.take(k as int), recorded@, explicit@),
        decreases metadata.options@.len() - k,
    {
        let option = &metadata.options[k];
        assert(all.take(k + 1).drop_last() =~= all.take(k as int));
        let name = text::lower_of(option.name.as_str());
        let value = effective_value_of(option, recorded, explicit);
        out.insert(name.as_str(), value);
        k = k + 1;
    }
    assert(all.take(k as int) =~= all);
    Ok(out)
}

/// Options are resolved to exactly the declared ones, whatever was recorded
/// or given before.
pub proof fn lemma_effective_options_are_the_declared_ones(
    options: Seq<InstallOption>,
    recorded: Map<Seq<char>, OptionView>,
    explicit: Map<Seq<char>, OptionView>,
    name: Seq<char>,
)
    ensures
        effective(options, recorded, explicit).dom().contains(name) <==> exists|i: int|
            0 <= i < options.len() && text::lower((#[trigger] options[i]).name@) == name,
    decreases options.len(),
{
    if options.len() > 0 {
        let before = options.drop_last();
        lemma_effective_options_are_the_declared_ones(before, recorded, explicit, name);
        if effective(options, recorded, explicit).dom().contains(name) {
            if text::lower(options.last().name@) == name {
                assert(text::lower(options[options.len() - 1].name@) == name);
            } else {
                let i = choose|i: int|
                    0 <= i < before.len() && text::lower((#[trigger] before[i]).name@) == name;
                assert(text::lower(options[i].name@) == name);
            }
        }
        if exists|i: int|
            0 <= i < options.len() && text::lower((#[trigger] options[i]).name@) == name {
            let i = choose|i: int|
                0 <= i < options.len() && text::lower((#[trigger] options[i]).name@) == name;
            if i < before.len() {
                assert(text::lower(before[i].name@) == name);
            }
        }
    }
}

/// Holds of the files the options want.
pub open spec fn file_on(options: Map<Seq<char>, OptionView>) -> spec_fn(File) -> bool {
    |f: File| predicate::wanted(f.when, Seq::<char>::empty(), options)
}

/// The files the options want.
pub open spec fn wanted_files(files: Seq<File>, options: Map<Seq<char>, OptionView>) -> Seq<
    DesiredFileView,
> {
    files.filter(file_on(options)).map_values(
        |f: File|
            DesiredFileView { path: target::relative(f.path@), entry: f.entry@, size: f.size },
    )
}

fn files_of(files: &Vec<File>, options: &Options) -> (r: Vec<DesiredFile>)
    ensures
        text::views(r@) == wanted_files(files@, options@),
{
    let ghost o = options@;
    let ghost p = file_on(o);
    let mut out: Vec<DesiredFile> = Vec::new();
    let mut i: usize = 0;
    proof {
        reveal(Seq::filter);
        reveal_strlit("");
        assert(""@ =~= Seq::<char>::empty());
        assert(text::views(out@) =~= wanted_files(files@.take(0), o));
    }
    while i < files.len()
        invariant
            i <= files@.len(),
            o == options@,
            p == file_on(o),
            ""@ == Seq::<char>::empty(),
            text::views(out@) == wanted_files(files@.take(i as int), o),
        decreases files@.len() - i,
    {
        proof {
            lists::lemma_filter_take(files@, p, i as int);
        }
        let f = &files[i];
        let ghost before = wanted_files(files@.take(i as int), o);
        if predicate::enabled(f.when.as_ref(), "", options) {
            let file = DesiredFile {
                path: target::to_relative(f.path.as_str()),
                entry: f.entry.clone(),
                size: f.size,
            };
            proof {
                text::lemma_views_push(out@, file);
                assert(wanted_files(files@.take(i + 1), o) =~= before.push(file@));
            }
            out.push(file);
        }
        i = i + 1;
    }
    assert(files@.take(i as int) =~= files@);
    out
}

/// Whether one of several files lies below a directory.
pub open spec fn holds_a_file(directory: Seq<char>, files: Seq<DesiredFileView>) -> bool {
    exists|i: int| 0 <= i < files.len() && files::lies_above(directory, (#[trigger] files[i]).path)
}

fn holds_file(directory: &str, files: &Vec<DesiredFile>) -> (r: bool)
    ensures
        r == holds_a_file(directory@, text::views(files@)),
{
    let ghost all = text::views(files@);
    let mut opening = text::lower_of(directory);
    opening.push('\\');
    let mut i: usize = 0;
    while i < files.len()
        invariant
            i <= files@.len(),
            all == text::views(files@),
            opening@ == text::lower(directory@).push('\\'),
            forall|j: int|
                0 <= j < i ==> !files::lies_above(directory@, (#[trigger] all[j]).path),
        decreases files@.len() - i,
    {
        assert(all[i as int] == files@[i as int]@);
        let path = text::lower_of(files[i].path.as_str());
        if text::starts_with(path.as_str(), opening.as_str()) {
            return true;
        }
        i = i + 1;
    }
    false
}

/// The declared directories with a wanted file below them, in the order they
/// are declared in.
pub open spec fn needed_directories(
    directories: Seq<Directory>,
    files: Seq<DesiredFileView>,
) -> Seq<Seq<char>>
    decreases directories.len(),
{
    if directories.len() == 0 {
        Seq::empty()
    } else {
        let before = needed_directories(directories.drop_last(), files);
        let path = target::relative(directories.last().path@);
        if holds_a_file(path, files) {
            before.push(path)
        } else {
            before
        }
    }
}

/// The directories a package needs for the files it wants now: the root
/// first, then shallowest first so parents precede children, each once.
pub open spec fn wanted_directories(
    directories: Seq<Directory>,
    files: Seq<DesiredFileView>,
) -> Seq<Seq<char>> {
    seq![Seq::<char>::empty()] + lists::shallow_first(
        lists::distinct(needed_directories(directories, files)),
    )
}

/// The directories a package needs for the files it wants now. The
/// metadata's list is authoritative about which directories exist, and a
/// declared directory is wanted while a wanted file lies below it, so a
/// component's directories come and go with its files.
fn desired_directories(metadata: &Metadata, files: &Vec<DesiredFile>) -> (r: Vec<String>)
    ensures
        text::views(r@) == wanted_directories(metadata.directories@, text::views(files@)),
{
    let ghost f = text::views(files@);
    let ghost all = metadata.directories@;
    let mut out: Vec<String> = Vec::new();
    let mut i: usize = 0;
    assert(all.take(0) =~= Seq::<Directory>::empty());
    assert(text::views(out@) =~= lists::distinct(needed_directories(all.take(0), f)));
    while i < metadata.directories.len()
        invariant
            i <= metadata.directories@.len(),
            f == text::views(files@),
            all == metadata.directories@,
            text::views(out@) == lists::distinct(needed_directories(all.take(i as int), f)),
        decreases metadata.directories@.len() - i,
    {
        assert(all.take(i + 1).drop_last() =~= all.take(i as int));
        let ghost before = needed_directories(all.take(i as int), f);
        let path = target::to_relative(metadata.directories[i].path.as_str());
        if holds_file(path.as_str(), files) {
            assert(before.push(path@).drop_last() =~= before);
            if !text::listed(&out, path.as_str()) {
                proof {
                    text::lemma_views_push(out@, path);
                }
                out.push(path);
            }
        }
        i = i + 1;
    }
    assert(all.take(i as int) =~= all);
    let sorted = lists::sort_paths(out);
    let mut r: Vec<String> = Vec::new();
    r.push(String::new());
    let ghost head = r@;
    let ghost tail = sorted@;
    let mut sorted = sorted;
    r.append(&mut sorted);
    proof {
        text::lemma_views_concat(head, tail);
        assert(text::views(head) =~= seq![Seq::<char>::empty()]);
    }
    r
}

/// The PATH text of one declared entry.
pub open spec fn entry_text(entry: PathEntry, install_root: Seq<char>) -> Result<
    Seq<char>,
    ErrorView,
> {
    match target::placed_at(install_root, target::relative(entry.path@)) {
        Ok(at) => Ok(text::trim_end(at, '\\')),
        Err(e) => Err(e),
    }
}

/// Holds of the entries equivalent to one.
pub open spec fn same_entry(raw: Seq<char>, machine: Machine) -> spec_fn(Seq<char>) -> bool {
    |e: Seq<char>| path::normal(e, machine) == path::normal(raw, machine)
}

/// The PATH entries the options want, each once: one directory may be
/// declared under two values of a choice option, and is one entry.
pub open spec fn wanted_entries(
    entries: Seq<PathEntry>,
    options: Map<Seq<char>, OptionView>,
    install_root: Seq<char>,
    machine: Machine,
) -> Result<Seq<Seq<char>>, ErrorView>
    decreases entries.len(),
{
    if entries.len() == 0 {
        Ok(Seq::empty())
    } else {
        match wanted_entries(entries.drop_last(), options, install_root, machine) {
            Err(e) => Err(e),
            Ok(before) => {
                let entry = entries.last();
                if !predicate::wanted(entry.when, entry.option@, options) {
                    Ok(before)
                } else {
                    match entry_text(entry, install_root) {
                        Err(e) => Err(e),
                        Ok(raw) => if lists::first(before, same_entry(raw, machine)) is Some {
                            Ok(before)
                        } else {
                            Ok(before.push(raw))
                        },
                    }
                }
            },
        }
    }
}

proof fn lemma_entries_fail(
    entries: Seq<PathEntry>,
    options: Map<Seq<char>, OptionView>,
    install_root: Seq<char>,
    machine: Machine,
    i: int,
)
    requires
        0 <= i <= entries.len(),
        wanted_entries(entries.take(i), options, install_root, machine) is Err,
    ensures
        wanted_entries(entries, options, install_root, machine) == wanted_entries(
            entries.take(i),
            options,
            install_root,
            machine,
        ),
    decreases entries.len(),
{
    if i < entries.len() {
        assert(entries.drop_last().take(i) =~= entries.take(i));
        lemma_entries_fail(entries.drop_last(), options, install_root, machine, i);
    } else {
        assert(entries.take(i) =~= entries);
    }
}

fn has_entry(entries: &Vec<String>, raw: &str, machine: &Machine) -> (r: bool)
    ensures
        r == (lists::first(text::views(entries@), same_entry(raw@, *machine)) is Some),
{
    let ghost all = text::views(entries@);
    let ghost p = same_entry(raw@, *machine);
    let wanted = path::normalize(raw, machine);
    let mut i: usize = 0;
    while i < entries.len()
        invariant
            i <= entries@.len(),
            all == text::views(entries@),
            p == same_entry(raw@, *machine),
            wanted@ == path::normal(raw@, *machine),
            forall|j: int| 0 <= j < i ==> !p(#[trigger] all[j]),
        decreases entries@.len() - i,
    {
        assert(all[i as int] == entries@[i as int]@);
        let own = path::normalize(entries[i].as_str(), machine);
        if text::same(own.as_str(), wanted.as_str()) {
            proof {
                lists::lemma_first_at(all, p, i as int);
            }
            return true;
        }
        i = i + 1;
    }
    proof {
        lists::lemma_first_none(all, p);
    }
    false
}

fn entries_of(
    entries: &Vec<PathEntry>,
    options: &Options,
    install_root: &str,
    machine: &Machine,
) -> (r: Result<Vec<String>, Error>)
    ensures
        match (r, wanted_entries(entries@, options@, install_root@, *machine)) {
            (Ok(v), Ok(s)) => text::views(v@) == s,
            (Err(e), Err(s)) => e@ == s,
            _ => false,
        },
{
    let mut out: Vec<String> = Vec::new();
    let mut i: usize = 0;
    assert(text::views(out@) =~= Seq::empty());
    while i < entries.len()
        invariant
            i <= entries@.len(),
            wanted_entries(entries@.take(i as int), options@, install_root@, *machine) == Ok::<
                Seq<Seq<char>>,
                ErrorView,
            >(text::views(out@)),
        decreases entries@.len() - i,
    {
        assert(entries@.take(i + 1).drop_last() =~= entries@.take(i as int));
        let entry = &entries[i];
        if predicate::enabled(entry.when.as_ref(), entry.option.as_str(), options) {
            let place = target::to_relative(entry.path.as_str());
            match target::absolute(install_root, place.as_str()) {
                Err(e) => {
                    proof {
                        lemma_entries_fail(entries@, options@, install_root@, *machine, i + 1);
                    }
                    return Err(e);
                },
                Ok(at) => {
                    let raw = text::trim_end_of(at.as_str(), '\\');
                    if !has_entry(&out, raw.as_str(), machine) {
                        proof {
                            text::lemma_views_push(out@, raw);
                        }
                        out.push(raw);
                    }
                },
            }
        }
        i = i + 1;
    }
    assert(entries@.take(i as int) =~= entries@);
    Ok(out)
}

/// The state the metadata and the effective options want on this machine.
#[derive(Debug)]
pub struct Desired {
    pub locations: Locations,
    pub directories: Vec<String>,
    pub files: Vec<DesiredFile>,
    /// The product's own registry values and the values every enabled
    /// integration compiles to, in that order.
    pub registry_values: Vec<DesiredValue>,
    /// Raw PATH entry texts, each once.
    pub path_entries: Vec<String>,
    pub environment_variables: Vec<DesiredVariable>,
    pub shortcuts: Vec<DesiredShortcut>,
    pub firewall_rules: Vec<Rule>,
    pub registration_key: KeyPath,
    pub registration_values: Vec<DesiredValue>,
    /// The declared integrations as compiled, for the reports.
    pub integrations: Vec<Integration>,
    /// What resolving the desired state found worth saying: a shortcut
    /// folder this scope does not have, a URL scheme another application
    /// owns.
    pub findings: Vec<Finding>,
}

/// What a [`Desired`] says.
#[verifier::ext_equal]
pub struct DesiredView {
    pub locations: LocationsView,
    pub directories: Seq<Seq<char>>,
    pub files: Seq<DesiredFileView>,
    pub registry_values: Seq<DesiredValueView>,
    pub path_entries: Seq<Seq<char>>,
    pub environment_variables: Seq<DesiredVariableView>,
    pub shortcuts: Seq<DesiredShortcutView>,
    pub firewall_rules: Seq<RuleView>,
    pub registration_key: KeyView,
    pub registration_values: Seq<DesiredValueView>,
    pub integrations: Seq<IntegrationView>,
    pub findings: Seq<FindingView>,
}

impl View for Desired {
    type V = DesiredView;

    open spec fn view(&self) -> DesiredView {
        DesiredView {
            locations: self.locations@,
            directories: text::views(self.directories@),
            files: text::views(self.files@),
            registry_values: text::views(self.registry_values@),
            path_entries: text::views(self.path_entries@),
            environment_variables: text::views(self.environment_variables@),
            shortcuts: text::views(self.shortcuts@),
            firewall_rules: text::views(self.firewall_rules@),
            registration_key: self.registration_key@,
            registration_values: text::views(self.registration_values@),
            integrations: text::views(self.integrations@),
            findings: text::views(self.findings@),
        }
    }
}

/// The desired state of a run. The first declaration that cannot be resolved
/// ends it: the registration, then PATH, the registry values, the
/// integrations, the shortcuts and the firewall rules.
pub open spec fn resolved(
    m: Metadata,
    o: Map<Seq<char>, OptionView>,
    scope: Scope,
    root: Seq<char>,
    uninstaller: Seq<char>,
    install_date: Seq<char>,
    machine: Machine,
    owned: Owned,
) -> Result<DesiredView, ErrorView> {
    let key = scope::uninstall_root(scope).child(m.key_name());
    match registration::registration_values(
        m,
        key,
        root,
        uninstaller,
        install_date,
    ) {
        Err(e) => Err(e),
        Ok(registration_values) => match wanted_entries(
            m.path_entries@,
            o,
            root,
            machine,
        ) {
            Err(e) => Err(e),
            Ok(path_entries) => match lists::all(
                registry::product_steps(m, o, scope, root),
            ) {
                Err(e) => Err(e),
                Ok(product) => match integration::compiled(
                    m,
                    o,
                    scope::software_root(scope),
                    root,
                    machine,
                    owned,
                ) {
                    Err(e) => Err(e),
                    Ok((integrations, integration_findings)) => match lists::gathered(
                        shortcut::shortcut_steps(m, o, scope, root, machine),
                    ) {
                        Err(e) => Err(e),
                        Ok((shortcuts, shortcut_findings)) => match firewall::wanted_rules(
                            m,
                            o,
                            root,
                        ) {
                            Err(e) => Err(e),
                            Ok(firewall_rules) => {
                                let files = wanted_files(m.files@, o);
                                Ok(
                                    DesiredView {
                                        locations: scope::located(scope),
                                        directories: wanted_directories(m.directories@, files),
                                        files,
                                        registry_values: product + integration::enabled_values(
                                            integrations,
                                        ),
                                        path_entries,
                                        environment_variables: environment::variables_for(
                                            m.environment_variables@.filter(
                                                environment::variable_wanted(o),
                                            ),
                                            scope::environment_key(scope),
                                            root,
                                            m.package.version@,
                                        ),
                                        shortcuts,
                                        firewall_rules,
                                        registration_key: key,
                                        registration_values,
                                        integrations,
                                        findings: shortcut_findings + integration_findings,
                                    },
                                )
                            },
                        },
                    },
                },
            },
        },
    }
}

/// Resolves the desired state for a run. The machine and the owned state are
/// consulted only where a declaration's meaning depends on them: a URL scheme
/// is registered as a class only where nothing else owns the key.
pub fn desired(
    metadata: &Metadata,
    options: &Options,
    scope: Scope,
    install_root: &str,
    uninstaller: &str,
    install_date: &str,
    machine: &Machine,
    owned: &Owned,
) -> (r: Result<Desired, Error>)
    ensures
        match (
            r,
            resolved(
                *metadata,
                options@,
                scope,
                install_root@,
                uninstaller@,
                install_date@,
                *machine,
                *owned,
            ),
        ) {
            (Ok(d), Ok(s)) => d@ == s,
            (Err(e), Err(s)) => e@ == s,
            _ => false,
        },
{
    let root = install_root;
    let locations = scope::locations(scope);
    let (registration_key, registration_values) = match registration::values(
        metadata,
        &locations,
        root,
        uninstaller,
        install_date,
    ) {
        Ok(v) => v,
        Err(e) => {
            return Err(e);
        },
    };
    let path_entries = match entries_of(&metadata.path_entries, options, root, machine) {
        Ok(v) => v,
        Err(e) => {
            return Err(e);
        },
    };
    let files = files_of(&metadata.files, options);
    let mut registry_values = match registry::product_values(metadata, options, &locations, root) {
        Ok(v) => v,
        Err(e) => {
            return Err(e);
        },
    };
    let integrations = match integration::desired(
        metadata,
        options,
        &locations,
        root,
        machine,
        owned,
    ) {
        Ok(v) => v,
        Err(e) => {
            return Err(e);
        },
    };
    let ghost product = registry_values@;
    let mut compiled = integrations.values();
    let ghost extra = compiled@;
    registry_values.append(&mut compiled);
    let (shortcuts, mut findings) = match shortcut::desired(
        metadata,
        options,
        &locations,
        root,
        machine,
    ) {
        Ok(v) => v,
        Err(e) => {
            return Err(e);
        },
    };
    let firewall_rules = match firewall::desired(metadata, options, root) {
        Ok(v) => v,
        Err(e) => {
            return Err(e);
        },
    };
    let ghost found = findings@;
    let ghost more = integrations.findings@;
    let mut integration_findings = integrations.findings;
    findings.append(&mut integration_findings);
    let directories = desired_directories(metadata, &files);
    let environment_variables = environment::desired(metadata, options, &locations, root);
    proof {
        text::lemma_views_concat(product, extra);
        text::lemma_views_concat(found, more);
    }
    Ok(
        Desired {
            locations,
            directories,
            files,
            registry_values,
            path_entries,
            environment_variables,
            shortcuts,
            firewall_rules,
            registration_key,
            registration_values,
            integrations: integrations.items,
            findings,
        },
    )
}

}
