//! The four typed detectors: a directory of version-named subdirectories, a
//! registry value, a file's Windows version, or an Add/Remove Programs entry.
//! Every detector yields the version it found, and the requirement decides
//! whether it satisfies: the minimum's major and not lower, or any version
//! when no minimum is declared. Detection reads the machine and nothing else —
//! no network, no mutation.
//!
//! Path templates expand the known folders the engine resolves
//! (`%PROGRAMFILES%`, `%LOCALAPPDATA%`, ...) and, after those, any environment
//! variable of the process (`%DOTNET_ROOT%`). A template whose placeholder has
//! no value describes a location that does not exist on this machine, so the
//! detector reports absence rather than failing.

use vstd::prelude::*;

use crate::dependency::pattern;
use crate::dependency::pattern::{Choice, Pattern};
use crate::error::{Error, ErrorView};
use crate::identity;
use crate::lists;
use crate::machine;
use crate::machine::{DataView, KeyPath, KeyView, Machine};
use crate::metadata::{Detector, DetectorKind};
use crate::paths;
use crate::plan::target;
use crate::text;

verus! {

/// The three Add/Remove Programs roots a registration detector reads by
/// default.
pub const REGISTRATION_ROOTS: [&'static str; 3] = [
    "HKLM\\SOFTWARE\\Microsoft\\Windows\\CurrentVersion\\Uninstall",
    "HKLM\\SOFTWARE\\WOW6432Node\\Microsoft\\Windows\\CurrentVersion\\Uninstall",
    "HKCU\\SOFTWARE\\Microsoft\\Windows\\CurrentVersion\\Uninstall",
];

/// What a detector found.
#[derive(Debug, Clone, PartialEq, Eq)]
pub enum Detection {
    /// A version satisfying the requirement.
    Present { version: String },
    /// Nothing satisfying; `found` is the highest version seen that did not
    /// satisfy, for the log.
    Absent { found: Option<String> },
}

/// What a [`Detection`] says.
#[verifier::ext_equal]
pub enum DetectionView {
    Present { version: Seq<char> },
    Absent { found: Option<Seq<char>> },
}

impl View for Detection {
    type V = DetectionView;

    open spec fn view(&self) -> DetectionView {
        match *self {
            Detection::Present { version } => DetectionView::Present { version: version@ },
            Detection::Absent { found } => DetectionView::Absent { found: text::option_view(found) },
        }
    }
}

impl Detection {
    /// The version that satisfies.
    pub fn version(&self) -> (r: Option<&str>)
        ensures
            match r {
                Some(v) => self@ == (DetectionView::Present { version: v@ }),
                None => self@ is Absent,
            },
    {
        match self {
            Detection::Present { version } => Some(version.as_str()),
            Detection::Absent { .. } => None,
        }
    }
}

/// Expands a path template; `None` when a placeholder has no value here.
pub open spec fn expansion(template: Seq<char>, machine: Machine) -> Option<Seq<char>> {
    match identity::filled(template, machine, true) {
        Ok(path) => Some(path),
        Err(_) => None,
    }
}

/// Expands a path template; `None` when a placeholder has no value here.
pub fn expand(template: &str, machine: &Machine) -> (r: Option<String>)
    ensures
        text::option_view(r) == expansion(template@, *machine),
{
    match identity::expand_with_environment(template, machine) {
        Ok(path) => Some(path),
        Err(_) => None,
    }
}

/// Whether a text is a version a detector may report: dotted numeric, and not
/// the "nothing" value `0.0.0.0`.
pub open spec fn versioned(s: Seq<char>) -> bool {
    let parts = text::split(text::trim(s), '.');
    &&& forall|i: int|
        0 <= i < parts.len() ==> (#[trigger] parts[i]).len() > 0 && text::all_digits(parts[i])
    &&& exists|i: int| 0 <= i < parts.len() && identity::component(#[trigger] parts[i]) != 0
}

fn only_digits(s: &str) -> (r: bool)
    ensures
        r == text::all_digits(s@),
{
    let v = text::chars_of(s);
    let mut i: usize = 0;
    while i < v.len()
        invariant
            i <= v@.len(),
            v@ == s@,
            forall|j: int| 0 <= j < i ==> text::is_digit(#[trigger] v@[j]),
        decreases v@.len() - i,
    {
        if !('0' <= v[i] && v[i] <= '9') {
            assert(!text::is_digit(s@[i as int]));
            return false;
        }
        i = i + 1;
    }
    true
}

/// A version string a detector may report: starts with a digit, is dotted
/// numeric, and is not the "nothing" value `0.0.0.0`.
pub fn is_version(text: &str) -> (r: bool)
    ensures
        r == versioned(text@),
{
    let trimmed = text::trim_of(text);
    let parts = text::split_of(trimmed.as_str(), '.');
    let ghost all = text::split(text::trim(text@), '.');
    let mut something = false;
    let mut i: usize = 0;
    while i < parts.len()
        invariant
            i <= parts@.len(),
            all == text::split(text::trim(text@), '.'),
            all == text::views(parts@),
            forall|j: int|
                0 <= j < i ==> (#[trigger] all[j]).len() > 0 && text::all_digits(all[j]),
            something <==> exists|j: int| 0 <= j < i && identity::component(#[trigger] all[j])
                != 0,
        decreases parts@.len() - i,
    {
        assert(all[i as int] == parts@[i as int]@);
        if parts[i].as_str().is_empty() || !only_digits(parts[i].as_str()) {
            return false;
        }
        match text::parse_u64(parts[i].as_str()) {
            Some(n) => {
                if n != 0 {
                    something = true;
                }
            },
            None => {},
        }
        i = i + 1;
    }
    something
}

/// Holds of the texts that are versions.
pub open spec fn is_a_version() -> spec_fn(Seq<char>) -> bool {
    |v: Seq<char>| versioned(v)
}

/// Holds of the versions that satisfy a minimum.
pub open spec fn is_enough(minimum: Seq<char>) -> spec_fn(Seq<char>) -> bool {
    |v: Seq<char>| versioned(v) && identity::satisfies(v, minimum)
}

/// The highest of some versions: of equal ones, the first.
pub open spec fn highest(versions: Seq<Seq<char>>) -> Option<Seq<char>>
    decreases versions.len(),
{
    if versions.len() == 0 {
        None
    } else {
        match highest(versions.drop_last()) {
            None => Some(versions.last()),
            Some(best) => if identity::is_above(versions.last(), best) {
                Some(versions.last())
            } else {
                Some(best)
            },
        }
    }
}

/// The best of what was found: the highest version that satisfies, or the
/// highest that does not as `found`. What is no version does not count.
pub open spec fn chosen(found: Seq<Seq<char>>, minimum: Seq<char>) -> DetectionView {
    match highest(found.filter(is_enough(minimum))) {
        Some(version) => DetectionView::Present { version },
        None => DetectionView::Absent { found: highest(found.filter(is_a_version())) },
    }
}

fn better(version: &str, best: &Option<String>) -> (r: bool)
    ensures
        r == match text::option_view(*best) {
            None => true,
            Some(b) => identity::is_above(version@, b),
        },
{
    match best {
        None => true,
        Some(b) => identity::is_above_of(version, b.as_str()),
    }
}

/// Picks the best of the versions found: a satisfying one (the highest), or
/// the highest unsatisfying one as `found`.
pub fn best_of(versions: &Vec<String>, minimum: &str) -> (r: Detection)
    ensures
        r@ == chosen(text::views(versions@), minimum@),
{
    let ghost all = text::views(versions@);
    let ghost enough = is_enough(minimum@);
    let ghost any = is_a_version();
    let mut best_ok: Option<String> = None;
    let mut best_any: Option<String> = None;
    let mut i: usize = 0;
    proof {
        reveal(Seq::filter);
        assert(all.take(0) =~= Seq::<Seq<char>>::empty());
    }
    while i < versions.len()
        invariant
            i <= versions@.len(),
            all == text::views(versions@),
            enough == is_enough(minimum@),
            any == is_a_version(),
            text::option_view(best_ok) == highest(all.take(i as int).filter(enough)),
            text::option_view(best_any) == highest(all.take(i as int).filter(any)),
        decreases versions@.len() - i,
    {
        proof {
            assert(all[i as int] == versions@[i as int]@);
            lists::lemma_filter_take(all, enough, i as int);
            lists::lemma_filter_take(all, any, i as int);
            let a = all.take(i as int).filter(enough);
            let b = all.take(i as int).filter(any);
            assert(a.push(all[i as int]).drop_last() =~= a);
            assert(b.push(all[i as int]).drop_last() =~= b);
        }
        let version = versions[i].as_str();
        if is_version(version) {
            if identity::version_satisfies(version, minimum) && better(version, &best_ok) {
                best_ok = Some(text::owned(version));
            }
            if better(version, &best_any) {
                best_any = Some(text::owned(version));
            }
        }
        i = i + 1;
    }
    assert(all.take(i as int) =~= all);
    match best_ok {
        Some(version) => Detection::Present { version },
        None => Detection::Absent { found: best_any },
    }
}

/// What a pattern of a detector says: nothing where it has none.
pub open spec fn pattern_says(detector: Detector) -> Result<Option<Choice>, ErrorView> {
    if detector.pattern@.len() == 0 {
        Ok(None)
    } else {
        match pattern::pattern_in(detector.pattern@) {
            Ok(choice) => Ok(Some(choice)),
            Err(why) => Err(pattern::refused(detector.pattern@, why)),
        }
    }
}

/// Whether a name matches a pattern as a whole.
pub open spec fn named_so(choice: Choice, name: Seq<char>) -> bool {
    pattern::choice_matches(
        choice,
        name.map_values(|c: char| text::folded(c)),
        0,
        name.len() as int,
    )
}

/// Holds of the directories right below one, however the two are written.
pub open spec fn right_below(root: Seq<char>) -> spec_fn(Seq<char>) -> bool {
    |path: Seq<char>|
        target::file_name(path).len() > 0 && (target::parent_folder(path) matches Some(p)
            && paths::same_place(p, root))
}

/// Holds of the paths whose last component a pattern allows.
pub open spec fn fitting(choice: Option<Choice>) -> spec_fn(Seq<char>) -> bool {
    |path: Seq<char>|
        choice matches Some(choice) ==> named_so(choice, target::file_name(path))
}

/// Holds of the directories right below one that a pattern allows.
pub open spec fn candidate(root: Seq<char>, choice: Option<Choice>) -> spec_fn(Seq<char>) -> bool {
    |path: Seq<char>| right_below(root)(path) && fitting(choice)(path)
}

/// The last component of a path.
pub open spec fn last_component() -> spec_fn(Seq<char>) -> Seq<char> {
    |path: Seq<char>| target::file_name(path)
}

/// The names of the directories right below one that a pattern allows.
pub open spec fn directories_found(
    root: Seq<char>,
    choice: Option<Choice>,
    machine: Machine,
) -> Seq<Seq<char>> {
    text::views(machine.directories@).filter(candidate(root, choice)).map_values(last_component())
}

/// What a compiled pattern says, where there is one.
pub open spec fn said(wanted: Option<Pattern>) -> Option<Choice> {
    match wanted {
        Some(p) => Some(p.says()),
        None => None,
    }
}

fn find_directories(root: &str, wanted: &Option<Pattern>, machine: &Machine) -> (r: Vec<String>)
    ensures
        text::views(r@) == directories_found(root@, said(*wanted), *machine),
{
    let ghost choice = said(*wanted);
    let ghost all = text::views(machine.directories@);
    let ghost keep = candidate(root@, choice);
    let ghost name = last_component();
    let there = paths::place_of(root);
    let mut out: Vec<String> = Vec::new();
    let mut i: usize = 0;
    proof {
        reveal(Seq::filter);
        assert(all.take(0) =~= Seq::<Seq<char>>::empty());
        assert(text::views(out@) =~= all.take(0).filter(keep).map_values(name));
    }
    while i < machine.directories.len()
        invariant
            text::views(there@) == paths::place(root@),
            i <= machine.directories@.len(),
            all == text::views(machine.directories@),
            choice == said(*wanted),
            keep == candidate(root@, choice),
            name == last_component(),
            text::views(out@) == all.take(i as int).filter(keep).map_values(name),
        decreases machine.directories@.len() - i,
    {
        let path = machine.directories[i].as_str();
        proof {
            assert(all[i as int] == path@);
            lists::lemma_filter_take(all, keep, i as int);
            let seen = all.take(i as int).filter(keep);
            assert(seen.push(path@).map_values(name) =~= seen.map_values(name).push(name(path@)));
        }
        let below = match target::parent_folder_of(path) {
            Some(parent) => paths::leads_to(parent.as_str(), &there),
            None => false,
        };
        let last = target::file_name_of(path);
        if below && !last.as_str().is_empty() {
            let fits = match wanted {
                Some(p) => p.is_match(last.as_str()),
                None => true,
            };
            if fits {
                proof {
                    text::lemma_views_push(out@, last);
                }
                out.push(last);
            }
        }
        i = i + 1;
    }
    assert(all.take(i as int) =~= all);
    out
}

/// Whether a result is what a specification says.
pub open spec fn agrees(r: Result<Detection, Error>, s: Result<DetectionView, ErrorView>) -> bool {
    match (r, s) {
        (Ok(a), Ok(b)) => a@ == b,
        (Err(a), Err(b)) => a@ == b,
        _ => false,
    }
}

/// What a directory of version-named subdirectories says.
pub open spec fn directory_says(detector: Detector, minimum: Seq<char>, machine: Machine) -> Result<
    DetectionView,
    ErrorView,
> {
    match pattern_says(detector) {
        Err(e) => Err(e),
        Ok(choice) => match expansion(detector.path@, machine) {
            None => Ok(DetectionView::Absent { found: None }),
            Some(root) => Ok(chosen(directories_found(root, choice, machine), minimum)),
        },
    }
}

fn directory_version(detector: &Detector, minimum: &str, machine: &Machine) -> (r: Result<
    Detection,
    Error,
>)
    ensures
        agrees(r, directory_says(*detector, minimum@, *machine)),
{
    let wanted = if detector.pattern.as_str().is_empty() {
        None
    } else {
        Some(Pattern::compile(detector.pattern.as_str())?)
    };
    match expand(detector.path.as_str(), machine) {
        None => Ok(Detection::Absent { found: None }),
        Some(root) => {
            let names = find_directories(root.as_str(), &wanted, machine);
            Ok(best_of(&names, minimum))
        },
    }
}

/// The text a registry value holds, where it holds one.
pub open spec fn text_of(data: Option<DataView>) -> Option<Seq<char>> {
    match data {
        Some(DataView::String(s)) => Some(s),
        Some(DataView::ExpandString(s)) => Some(s),
        _ => None,
    }
}

/// The text the value `name` of a key holds, where the key is there.
pub open spec fn text_at(key: KeyView, name: Seq<char>, machine: Machine) -> Option<Seq<char>> {
    text_of(machine.value(key, name))
}

fn read_text(key: &KeyPath, name: &str, machine: &Machine) -> (r: Option<String>)
    ensures
        text::option_view(r) == text_at(key@, name@, *machine),
{
    match machine.read_value(key, name) {
        Some(data) => match data.as_text() {
            Some(s) => Some(text::owned(s)),
            None => None,
        },
        None => None,
    }
}

/// The texts some keys hold under one name, in order.
pub open spec fn values_found(keys: Seq<String>, name: Seq<char>, machine: Machine) -> Seq<Seq<char>>
    decreases keys.len(),
{
    if keys.len() == 0 {
        Seq::empty()
    } else {
        let before = values_found(keys.drop_last(), name, machine);
        match machine::parsed_key(keys.last()@) {
            None => before,
            Some(key) => match text_at(key, name, machine) {
                None => before,
                Some(value) => before.push(value),
            },
        }
    }
}

fn find_values(keys: &Vec<String>, name: &str, machine: &Machine) -> (r: Vec<String>)
    ensures
        text::views(r@) == values_found(keys@, name@, *machine),
{
    let mut out: Vec<String> = Vec::new();
    let mut i: usize = 0;
    assert(text::views(out@) =~= values_found(keys@.take(0), name@, *machine));
    while i < keys.len()
        invariant
            i <= keys@.len(),
            text::views(out@) == values_found(keys@.take(i as int), name@, *machine),
        decreases keys@.len() - i,
    {
        assert(keys@.take(i + 1).drop_last() =~= keys@.take(i as int));
        match KeyPath::parse(keys[i].as_str()) {
            Ok(key) => match read_text(&key, name, machine) {
                Some(value) => {
                    proof {
                        text::lemma_views_push(out@, value);
                    }
                    out.push(value);
                },
                None => {},
            },
            Err(_) => {},
        }
        i = i + 1;
    }
    assert(keys@.take(i as int) =~= keys@);
    out
}

fn registry_version(detector: &Detector, minimum: &str, machine: &Machine) -> (r: Detection)
    ensures
        r@ == chosen(values_found(detector.keys@, detector.value@, *machine), minimum@),
{
    let found = find_values(&detector.keys, detector.value.as_str(), machine);
    best_of(&found, minimum)
}

/// What a file says.
pub open spec fn file_says(detector: Detector, minimum: Seq<char>, machine: Machine) -> DetectionView {
    match expansion(detector.path@, machine) {
        None => DetectionView::Absent { found: None },
        Some(path) => chosen(
            match machine.version(path) {
                Some(version) => seq![version],
                None => Seq::empty(),
            },
            minimum,
        ),
    }
}

fn file_version(detector: &Detector, minimum: &str, machine: &Machine) -> (r: Detection)
    ensures
        r@ == file_says(*detector, minimum@, *machine),
{
    match expand(detector.path.as_str(), machine) {
        None => Detection::Absent { found: None },
        Some(path) => {
            let mut found: Vec<String> = Vec::new();
            match machine.file_version(path.as_str()) {
                Some(version) => {
                    let version = text::owned(version);
                    found.push(version);
                    assert(text::views(found@) =~= seq![version@]);
                },
                None => {
                    assert(text::views(found@) =~= Seq::<Seq<char>>::empty());
                },
            }
            best_of(&found, minimum)
        },
    }
}

/// The version an Add/Remove Programs entry states, where it is right below a
/// root and its display name is what a pattern asks for.
pub open spec fn entry_says(
    entry: KeyView,
    root: KeyView,
    choice: Choice,
    machine: Machine,
) -> Option<Seq<char>> {
    match entry.parent() {
        None => None,
        Some(parent) => if parent.key() != root.key() {
            None
        } else {
            match text_at(entry, "DisplayName"@, machine) {
                None => None,
                Some(name) => if name.len() == 0 || !named_so(choice, name) {
                    None
                } else {
                    text_at(entry, "DisplayVersion"@, machine)
                },
            }
        },
    }
}

/// The versions the entries below one root state, in order.
pub open spec fn entries_found(
    keys: Seq<KeyPath>,
    root: KeyView,
    choice: Choice,
    machine: Machine,
) -> Seq<Seq<char>>
    decreases keys.len(),
{
    if keys.len() == 0 {
        Seq::empty()
    } else {
        let before = entries_found(keys.drop_last(), root, choice, machine);
        match entry_says(keys.last()@, root, choice, machine) {
            None => before,
            Some(version) => before.push(version),
        }
    }
}

/// The versions the entries below some roots state, root by root.
pub open spec fn registrations_found(
    roots: Seq<Seq<char>>,
    choice: Choice,
    machine: Machine,
) -> Seq<Seq<char>>
    decreases roots.len(),
{
    if roots.len() == 0 {
        Seq::empty()
    } else {
        registrations_found(roots.drop_last(), choice, machine) + match machine::parsed_key(
            roots.last(),
        ) {
            None => Seq::empty(),
            Some(root) => entries_found(machine.keys@, root, choice, machine),
        }
    }
}

fn read_entry(entry: &KeyPath, root: &KeyPath, wanted: &Pattern, machine: &Machine) -> (r: Option<
    String,
>)
    ensures
        text::option_view(r) == entry_says(entry@, root@, wanted.says(), *machine),
{
    let parent = match entry.parent() {
        Some(parent) => parent,
        None => {
            return None;
        },
    };
    let above = parent.key();
    let asked = root.key();
    if !text::same(above.as_str(), asked.as_str()) {
        return None;
    }
    match read_text(entry, "DisplayName", machine) {
        None => None,
        Some(name) => if name.as_str().is_empty() || !wanted.is_match(name.as_str()) {
            None
        } else {
            read_text(entry, "DisplayVersion", machine)
        },
    }
}

fn find_entries(root: &KeyPath, wanted: &Pattern, machine: &Machine) -> (r: Vec<String>)
    ensures
        text::views(r@) == entries_found(machine.keys@, root@, wanted.says(), *machine),
{
    let ghost keys = machine.keys@;
    let mut out: Vec<String> = Vec::new();
    let mut i: usize = 0;
    assert(text::views(out@) =~= entries_found(keys.take(0), root@, wanted.says(), *machine));
    while i < machine.keys.len()
        invariant
            i <= keys.len(),
            keys == machine.keys@,
            text::views(out@) == entries_found(
                keys.take(i as int),
                root@,
                wanted.says(),
                *machine,
            ),
        decreases keys.len() - i,
    {
        assert(keys.take(i + 1).drop_last() =~= keys.take(i as int));
        match read_entry(&machine.keys[i], root, wanted, machine) {
            Some(version) => {
                proof {
                    text::lemma_views_push(out@, version);
                }
                out.push(version);
            },
            None => {},
        }
        i = i + 1;
    }
    assert(keys.take(i as int) =~= keys);
    out
}

/// The roots a registration detector reads.
pub open spec fn roots_of(detector: Detector) -> Seq<Seq<char>> {
    if detector.keys@.len() == 0 {
        seq![
            "HKLM\\SOFTWARE\\Microsoft\\Windows\\CurrentVersion\\Uninstall"@,
            "HKLM\\SOFTWARE\\WOW6432Node\\Microsoft\\Windows\\CurrentVersion\\Uninstall"@,
            "HKCU\\SOFTWARE\\Microsoft\\Windows\\CurrentVersion\\Uninstall"@,
        ]
    } else {
        text::views(detector.keys@)
    }
}

fn default_roots() -> (r: Vec<String>)
    ensures
        text::views(r@) == seq![
            "HKLM\\SOFTWARE\\Microsoft\\Windows\\CurrentVersion\\Uninstall"@,
            "HKLM\\SOFTWARE\\WOW6432Node\\Microsoft\\Windows\\CurrentVersion\\Uninstall"@,
            "HKCU\\SOFTWARE\\Microsoft\\Windows\\CurrentVersion\\Uninstall"@,
        ],
{
    let mut v: Vec<String> = Vec::new();
    v.push(text::owned(REGISTRATION_ROOTS[0]));
    v.push(text::owned(REGISTRATION_ROOTS[1]));
    v.push(text::owned(REGISTRATION_ROOTS[2]));
    assert(text::views(v@) =~= seq![
        "HKLM\\SOFTWARE\\Microsoft\\Windows\\CurrentVersion\\Uninstall"@,
        "HKLM\\SOFTWARE\\WOW6432Node\\Microsoft\\Windows\\CurrentVersion\\Uninstall"@,
        "HKCU\\SOFTWARE\\Microsoft\\Windows\\CurrentVersion\\Uninstall"@,
    ]);
    v
}

/// What the Add/Remove Programs entries say.
pub open spec fn registration_says(
    detector: Detector,
    minimum: Seq<char>,
    machine: Machine,
) -> Result<DetectionView, ErrorView> {
    match pattern::pattern_in(detector.pattern@) {
        Err(why) => Err(pattern::refused(detector.pattern@, why)),
        Ok(choice) => Ok(
            chosen(registrations_found(roots_of(detector), choice, machine), minimum),
        ),
    }
}

fn registration(detector: &Detector, minimum: &str, machine: &Machine) -> (r: Result<
    Detection,
    Error,
>)
    ensures
        agrees(r, registration_says(*detector, minimum@, *machine)),
{
    let wanted = Pattern::compile(detector.pattern.as_str())?;
    let roots = if detector.keys.len() == 0 {
        default_roots()
    } else {
        text::copy_list(&detector.keys)
    };
    let ghost all = roots_of(*detector);
    let ghost choice = wanted.says();
    let mut found: Vec<String> = Vec::new();
    let mut i: usize = 0;
    assert(text::views(roots@) =~= all);
    assert(text::views(found@) =~= registrations_found(all.take(0), choice, *machine));
    while i < roots.len()
        invariant
            i <= roots@.len(),
            choice == wanted.says(),
            all == text::views(roots@),
            text::views(found@) == registrations_found(all.take(i as int), choice, *machine),
        decreases roots@.len() - i,
    {
        proof {
            assert(all.take(i + 1).drop_last() =~= all.take(i as int));
            assert(all[i as int] == roots@[i as int]@);
        }
        match KeyPath::parse(roots[i].as_str()) {
            Ok(root) => {
                let mut more = find_entries(&root, &wanted, machine);
                proof {
                    text::lemma_views_concat(found@, more@);
                }
                found.append(&mut more);
            },
            Err(_) => {
                assert(text::views(found@) =~= registrations_found(all.take(i + 1), choice, *machine));
            },
        }
        i = i + 1;
    }
    assert(all.take(i as int) =~= all);
    Ok(best_of(&found, minimum))
}

/// What a detector says of a machine.
pub open spec fn detected(detector: Detector, minimum: Seq<char>, machine: Machine) -> Result<
    DetectionView,
    ErrorView,
> {
    match detector.kind {
        DetectorKind::DirectoryVersion => directory_says(detector, minimum, machine),
        DetectorKind::RegistryVersion => Ok(
            chosen(values_found(detector.keys@, detector.value@, machine), minimum),
        ),
        DetectorKind::FileVersion => Ok(file_says(detector, minimum, machine)),
        DetectorKind::Registration => registration_says(detector, minimum, machine),
        DetectorKind::Unknown(n) => Err(
            ErrorView {
                code: "metadata_invalid"@,
                message: "unknown detector kind "@ + text::signed_decimal(n as int),
            },
        ),
    }
}

/// Runs the detector against a machine.
pub fn detect(detector: &Detector, minimum: &str, machine: &Machine) -> (r: Result<
    Detection,
    Error,
>)
    ensures
        agrees(r, detected(*detector, minimum@, *machine)),
{
    match detector.kind {
        DetectorKind::DirectoryVersion => directory_version(detector, minimum, machine),
        DetectorKind::RegistryVersion => Ok(registry_version(detector, minimum, machine)),
        DetectorKind::FileVersion => Ok(file_version(detector, minimum, machine)),
        DetectorKind::Registration => registration(detector, minimum, machine),
        DetectorKind::Unknown(n) => {
            let n = text::signed_decimal_of(n as i64);
            let message = text::cat2("unknown detector kind ", n.as_str());
            Err(Error::new("metadata_invalid", message.as_str()))
        },
    }
}

proof fn lemma_highest(versions: Seq<Seq<char>>)
    ensures
        highest(versions) is None <==> versions.len() == 0,
        highest(versions) matches Some(best) ==> versions.contains(best) && forall|i: int|
            0 <= i < versions.len() ==> !identity::is_above(#[trigger] versions[i], best),
    decreases versions.len(),
{
    if versions.len() > 0 {
        let init = versions.drop_last();
        let last = versions.last();
        lemma_highest(init);
        let best = highest(versions)->Some_0;
        identity::lemma_versions_are_ordered(last, last, last);
        if highest(init) is Some {
            let was = highest(init)->Some_0;
            let k = choose|k: int| 0 <= k < init.len() && init[k] == was;
            assert(versions[k] == was);
            assert forall|i: int| 0 <= i < versions.len() implies !identity::is_above(
                #[trigger] versions[i],
                best,
            ) by {
                if i < init.len() {
                    assert(init[i] == versions[i]);
                    identity::lemma_versions_are_ordered(last, was, was);
                    identity::lemma_versions_are_ordered(versions[i], was, best);
                }
            }
        }
        assert(versions[versions.len() - 1] == last);
    }
}

/// A requirement that is met is met by the highest version that meets it: it
/// is one of those found, and no other that meets it is above it. And where a
/// version that meets it was found, it is met.
pub proof fn lemma_the_highest_satisfying_version_is_reported(
    found: Seq<Seq<char>>,
    minimum: Seq<char>,
)
    ensures
        chosen(found, minimum) matches DetectionView::Present { version } ==> found.contains(version)
            && versioned(version) && identity::satisfies(version, minimum) && forall|i: int|
            0 <= i < found.len() && versioned(#[trigger] found[i]) && identity::satisfies(
                found[i],
                minimum,
            ) ==> !identity::is_above(found[i], version),
        chosen(found, minimum) is Absent ==> forall|i: int|
            0 <= i < found.len() ==> !(versioned(#[trigger] found[i]) && identity::satisfies(
                found[i],
                minimum,
            )),
{
    let enough = is_enough(minimum);
    let kept = found.filter(enough);
    lemma_highest(kept);
    assert forall|i: int| 0 <= i < found.len() && enough(#[trigger] found[i]) implies kept.contains(
        found[i],
    ) by {
        found.lemma_filter_contains(enough, i);
    }
    if highest(kept) is Some {
        let best = highest(kept)->Some_0;
        let k = choose|k: int| 0 <= k < kept.len() && kept[k] == best;
        found.lemma_filter_pred(enough, k);
        found.lemma_filter_contains_rev(enough, kept[k]);
        assert forall|i: int|
            0 <= i < found.len() && versioned(#[trigger] found[i]) && identity::satisfies(
                found[i],
                minimum,
            ) implies !identity::is_above(found[i], best) by {
            assert(enough(found[i]));
            let m = choose|m: int| 0 <= m < kept.len() && kept[m] == found[i];
            assert(!identity::is_above(kept[m], best));
        }
    } else {
        assert forall|i: int| 0 <= i < found.len() implies !(versioned(#[trigger] found[i])
            && identity::satisfies(found[i], minimum)) by {
            if enough(found[i]) {
                assert(kept.contains(found[i]));
            }
        }
    }
}

/// Every text value that a named key has is a version that was found, and
/// nothing else is.
pub proof fn lemma_which_values_are_found(
    keys: Seq<String>,
    name: Seq<char>,
    machine: Machine,
    v: Seq<char>,
)
    ensures
        values_found(keys, name, machine).contains(v) <==> exists|i: int|
            0 <= i < keys.len() && says_text(#[trigger] keys[i]@, name, machine, v),
    decreases keys.len(),
{
    if keys.len() > 0 {
        let before = keys.drop_last();
        let n = keys.len() - 1;
        lemma_which_values_are_found(before, name, machine, v);
        let a = values_found(before, name, machine);
        let b = values_found(keys, name, machine);
        if a.contains(v) {
            let k = choose|k: int| 0 <= k < a.len() && a[k] == v;
            assert(b[k] == v);
            let i = choose|i: int|
                0 <= i < before.len() && says_text(#[trigger] before[i]@, name, machine, v);
            assert(says_text(keys[i]@, name, machine, v));
        }
        if says_text(keys[n]@, name, machine, v) {
            assert(b[b.len() - 1] == v);
        }
        if b.contains(v) && !a.contains(v) {
            let k = choose|k: int| 0 <= k < b.len() && b[k] == v;
            if k < a.len() {
                assert(a[k] == v);
            }
            assert(says_text(keys[n]@, name, machine, v));
        }
        if exists|i: int| 0 <= i < keys.len() && says_text(#[trigger] keys[i]@, name, machine, v) {
            let i = choose|i: int|
                0 <= i < keys.len() && says_text(#[trigger] keys[i]@, name, machine, v);
            if i < n {
                assert(says_text(before[i]@, name, machine, v));
            }
        }
    }
}

/// Whether a key has a text value.
pub open spec fn says_text(
    key: Seq<char>,
    name: Seq<char>,
    machine: Machine,
    v: Seq<char>,
) -> bool {
    machine::parsed_key(key) matches Some(k) && (machine.value(k, name) == Some(
        DataView::String(v),
    ) || machine.value(k, name) == Some(DataView::ExpandString(v)))
}

/// The version of a program that is registered right below a root, under a
/// name that fits, is found; nothing else is found there.
pub proof fn lemma_which_registrations_are_found(
    keys: Seq<KeyPath>,
    root: KeyView,
    choice: Choice,
    machine: Machine,
    v: Seq<char>,
)
    ensures
        entries_found(keys, root, choice, machine).contains(v) <==> exists|i: int|
            0 <= i < keys.len() && is_entry_of((#[trigger] keys[i])@, root, choice, machine, v),
    decreases keys.len(),
{
    if keys.len() > 0 {
        let before = keys.drop_last();
        let n = keys.len() - 1;
        lemma_which_registrations_are_found(before, root, choice, machine, v);
        let a = entries_found(before, root, choice, machine);
        let b = entries_found(keys, root, choice, machine);
        if a.contains(v) {
            let k = choose|k: int| 0 <= k < a.len() && a[k] == v;
            assert(b[k] == v);
            let i = choose|i: int|
                0 <= i < before.len() && is_entry_of(
                    (#[trigger] before[i])@,
                    root,
                    choice,
                    machine,
                    v,
                );
            assert(is_entry_of(keys[i]@, root, choice, machine, v));
        }
        if is_entry_of(keys[n]@, root, choice, machine, v) {
            assert(b[b.len() - 1] == v);
        }
        if b.contains(v) && !a.contains(v) {
            let k = choose|k: int| 0 <= k < b.len() && b[k] == v;
            if k < a.len() {
                assert(a[k] == v);
            }
            assert(is_entry_of(keys[n]@, root, choice, machine, v));
        }
        if exists|i: int|
            0 <= i < keys.len() && is_entry_of((#[trigger] keys[i])@, root, choice, machine, v) {
            let i = choose|i: int|
                0 <= i < keys.len() && is_entry_of(
                    (#[trigger] keys[i])@,
                    root,
                    choice,
                    machine,
                    v,
                );
            if i < n {
                assert(is_entry_of(before[i]@, root, choice, machine, v));
            }
        }
    }
}

/// Whether a key right below a root registers a program of a fitting name with
/// a version.
pub open spec fn is_entry_of(
    key: KeyView,
    root: KeyView,
    choice: Choice,
    machine: Machine,
    v: Seq<char>,
) -> bool {
    let name = text_of(machine.value(key, "DisplayName"@));
    &&& key.parent() matches Some(parent) && text::lower(parent.text()) == text::lower(root.text())
    &&& name matches Some(shown) && shown.len() > 0 && named_so(choice, shown)
    &&& text_of(machine.value(key, "DisplayVersion"@)) == Some(v)
}

/// A directory right below the root whose name fits gives its name as a
/// version, and nothing else does.
pub proof fn lemma_which_directories_are_found(
    root: Seq<char>,
    choice: Option<Choice>,
    machine: Machine,
    i: int,
    k: int,
)
    ensures
        0 <= i < machine.directories@.len() && fits(machine.directories@[i]@, root, choice)
            ==> directories_found(root, choice, machine).contains(
            target::file_name(machine.directories@[i]@),
        ),
        0 <= k < directories_found(root, choice, machine).len() ==> exists|j: int|
            0 <= j < machine.directories@.len() && fits(
                (#[trigger] machine.directories@[j])@,
                root,
                choice,
            ) && target::file_name(machine.directories@[j]@) == directories_found(
                root,
                choice,
                machine,
            )[k],
{
    let all = text::views(machine.directories@);
    let p = candidate(root, choice);
    let kept = all.filter(p);
    let found = directories_found(root, choice, machine);
    if 0 <= i < machine.directories@.len() && fits(machine.directories@[i]@, root, choice) {
        assert(all[i] == machine.directories@[i]@);
        assert(p(all[i]));
        lists::lemma_filter_holds(all, p, i);
        let n = choose|n: int| 0 <= n < kept.len() && kept[n] == all[i];
        assert(found[n] == target::file_name(all[i]));
    }
    if 0 <= k < found.len() {
        lists::lemma_filter_from(all, p, k);
        let j = choose|j: int| 0 <= j < all.len() && all[j] == kept[k];
        assert(all[j] == machine.directories@[j]@);
        assert(fits(machine.directories@[j]@, root, choice));
    }
}

/// Whether a directory lies right below a root under a name that fits.
pub open spec fn fits(path: Seq<char>, root: Seq<char>, choice: Option<Choice>) -> bool {
    &&& target::file_name(path).len() > 0
    &&& target::parent_folder(path) matches Some(p) && paths::place(p) == paths::place(root)
    &&& choice matches Some(c) ==> named_so(c, target::file_name(path))
}

/// What a detector looks at: directories below a root, values of keys, the
/// version of a file, or programs that are registered.
pub proof fn lemma_what_a_detector_looks_at(d: Detector, minimum: Seq<char>, machine: Machine)
    ensures
        ({
            let r = detected(d, minimum, machine);
            &&& d.kind == DetectorKind::RegistryVersion ==> r == Ok::<DetectionView, ErrorView>(
                chosen(values_found(d.keys@, d.value@, machine), minimum),
            )
            &&& d.kind == DetectorKind::FileVersion && (identity::filled(d.path@, machine, true)
                is Ok) && machine.version(identity::filled(d.path@, machine, true)->Ok_0) is Some
                ==> r == Ok::<DetectionView, ErrorView>(
                chosen(
                    seq![
                        machine.version(identity::filled(d.path@, machine, true)->Ok_0)->Some_0,
                    ],
                    minimum,
                ),
            )
            &&& d.kind == DetectorKind::DirectoryVersion && d.pattern@.len() == 0
                && identity::filled(d.path@, machine, true) is Ok ==> r == Ok::<
                DetectionView,
                ErrorView,
            >(
                chosen(
                    directories_found(
                        identity::filled(d.path@, machine, true)->Ok_0,
                        None,
                        machine,
                    ),
                    minimum,
                ),
            )
            &&& (d.kind == DetectorKind::DirectoryVersion || d.kind == DetectorKind::FileVersion)
                && d.pattern@.len() == 0 && identity::filled(d.path@, machine, true) is Err ==> r
                == Ok::<DetectionView, ErrorView>(DetectionView::Absent { found: None })
            &&& (d.kind is Unknown) ==> r is Err && r->Err_0.code == "metadata_invalid"@
            &&& d.kind == DetectorKind::Registration && r is Ok ==> pattern::pattern_in(d.pattern@)
                is Ok && r->Ok_0 == chosen(
                registrations_found(
                    if d.keys@.len() == 0 {
                        roots_of(d)
                    } else {
                        text::views(d.keys@)
                    },
                    pattern::pattern_in(d.pattern@)->Ok_0,
                    machine,
                ),
                minimum,
            )
        }),
{
}

/// Programs that are registered below any of the roots are found.
pub proof fn lemma_every_root_is_looked_at(
    roots: Seq<Seq<char>>,
    choice: Choice,
    machine: Machine,
    i: int,
    v: Seq<char>,
)
    requires
        0 <= i < roots.len(),
        machine::parsed_key(roots[i]) is Some,
        entries_found(
            machine.keys@,
            machine::parsed_key(roots[i])->Some_0,
            choice,
            machine,
        ).contains(v),
    ensures
        registrations_found(roots, choice, machine).contains(v),
    decreases roots.len(),
{
    let before = roots.drop_last();
    let a = registrations_found(before, choice, machine);
    let b = match machine::parsed_key(roots.last()) {
        None => Seq::empty(),
        Some(root) => entries_found(machine.keys@, root, choice, machine),
    };
    if i < before.len() {
        assert(before[i] == roots[i]);
        lemma_every_root_is_looked_at(before, choice, machine, i, v);
        let n = choose|n: int| 0 <= n < a.len() && a[n] == v;
        assert((a + b)[n] == v);
    } else {
        let n = choose|n: int| 0 <= n < b.len() && b[n] == v;
        assert((a + b)[a.len() + n] == v);
    }
}

}
