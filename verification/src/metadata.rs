//! The runtime metadata of a package: what it installs and on which
//! conditions, as plain declarations.

use vstd::prelude::*;
use vstd::string::*;

use crate::action::definition::{Action, Quiescence};
use crate::text;

verus! {

/// Where an installation lives: in one user's profile, or on the machine.
#[derive(Debug, Clone, Copy, PartialEq, Eq, Structural, Default)]
pub enum Scope {
    #[default]
    User,
    Machine,
}

impl Scope {
    /// `user` or `machine`.
    pub open spec fn name(self) -> Seq<char> {
        match self {
            Scope::User => "user"@,
            Scope::Machine => "machine"@,
        }
    }

    /// `user` or `machine`.
    pub fn as_str(self) -> (r: &'static str)
        ensures
            r@ == self.name(),
    {
        match self {
            Scope::User => "user",
            Scope::Machine => "machine",
        }
    }

    /// The scope a word names.
    pub open spec fn named(word: Seq<char>) -> Option<Scope> {
        if word == "user"@ {
            Some(Scope::User)
        } else if word == "machine"@ {
            Some(Scope::Machine)
        } else {
            None
        }
    }

    /// The scope a word names.
    pub fn parse(word: &str) -> (r: Option<Scope>)
        ensures
            r == Scope::named(word@),
    {
        if text::same(word, "user") {
            Some(Scope::User)
        } else if text::same(word, "machine") {
            Some(Scope::Machine)
        } else {
            None
        }
    }
}

/// The condition of an optional resource: while option `option` has the
/// value `equals`.
#[derive(Debug, Clone, PartialEq, Eq, Default)]
pub struct Predicate {
    pub option: String,
    pub equals: String,
}

impl Predicate {
    /// `<option> = <value>`, for the log.
    pub open spec fn description(self) -> Seq<char> {
        self.option@ + " = "@ + self.equals@
    }

    /// `<option> = <value>`, for the log.
    pub fn describe(&self) -> (r: String)
        ensures
            r@ == self.description(),
    {
        text::cat3(self.option.as_str(), " = ", self.equals.as_str())
    }
}

/// The value of an installer option.
#[derive(Debug, PartialEq, Eq)]
pub enum OptionValue {
    Bool(bool),
    Choice(String),
}

/// What an [`OptionValue`] is.
#[verifier::ext_equal]
pub enum OptionView {
    Bool(bool),
    Choice(Seq<char>),
}

impl View for OptionValue {
    type V = OptionView;

    open spec fn view(&self) -> OptionView {
        match self {
            OptionValue::Bool(b) => OptionView::Bool(*b),
            OptionValue::Choice(c) => OptionView::Choice(c@),
        }
    }
}

impl OptionView {
    /// The canonical text: `true`, `false` or the choice.
    pub open spec fn text(self) -> Seq<char> {
        match self {
            OptionView::Bool(true) => "true"@,
            OptionView::Bool(false) => "false"@,
            OptionView::Choice(c) => c,
        }
    }
}

impl Clone for OptionValue {
    fn clone(&self) -> (r: OptionValue)
        ensures
            r == *self,
    {
        match self {
            OptionValue::Bool(b) => OptionValue::Bool(*b),
            OptionValue::Choice(c) => OptionValue::Choice(c.clone()),
        }
    }
}

impl OptionValue {
    /// The canonical text: `true`, `false` or the choice.
    pub fn as_text(&self) -> (r: String)
        ensures
            r@ == self@.text(),
    {
        match self {
            OptionValue::Bool(b) => if *b {
                text::owned("true")
            } else {
                text::owned("false")
            },
            OptionValue::Choice(c) => c.clone(),
        }
    }

    /// Whether a boolean option is on.
    pub fn is_on(&self) -> (r: bool)
        ensures
            r == (self@ == OptionView::Bool(true)),
    {
        matches!(self, OptionValue::Bool(true))
    }
}

#[derive(Debug, Clone, Copy, PartialEq, Eq, Structural, Default)]
pub enum OptionKind {
    #[default]
    Boolean,
    Choice,
}

#[derive(Debug, Clone, PartialEq, Eq, Default)]
pub struct OptionChoice {
    pub value: String,
}

/// One declared installer option.
#[derive(Debug, Clone, PartialEq, Eq, Default)]
pub struct InstallOption {
    pub name: String,
    pub kind: OptionKind,
    /// The default of a boolean option.
    pub default: bool,
    pub choices: Vec<OptionChoice>,
    /// The default of a choice option.
    pub default_choice: String,
}

/// Holds of the choice that `given` names.
pub open spec fn choice_is(given: Seq<char>) -> spec_fn(OptionChoice) -> bool {
    |c: OptionChoice| text::lower(c.value@) == text::lower(given)
}

/// The value a text means for an option: `true`, `on`, `false` or `off` for
/// a boolean, a declared choice in its declared spelling for a choice,
/// without regard to case.
pub open spec fn value_from(option: InstallOption, given: Seq<char>) -> Option<OptionView> {
    match option.kind {
        OptionKind::Boolean => {
            let word = text::lower(given);
            if word == "true"@ || word == "on"@ {
                Some(OptionView::Bool(true))
            } else if word == "false"@ || word == "off"@ {
                Some(OptionView::Bool(false))
            } else {
                None
            }
        },
        OptionKind::Choice => match crate::lists::first(option.choices@, choice_is(given)) {
            Some(c) => Some(OptionView::Choice(c.value@)),
            None => None,
        },
    }
}

/// The declared default of an option.
pub open spec fn default_of(option: InstallOption) -> OptionView {
    match option.kind {
        OptionKind::Boolean => OptionView::Bool(option.default),
        OptionKind::Choice => OptionView::Choice(option.default_choice@),
    }
}

/// The values an option takes, as a message lists them.
pub open spec fn accepted(option: InstallOption) -> Seq<Seq<char>> {
    match option.kind {
        OptionKind::Boolean => seq!["on"@, "off"@],
        OptionKind::Choice => choice_texts(option.choices@),
    }
}

/// The declared choices, as texts.
pub open spec fn choice_texts(choices: Seq<OptionChoice>) -> Seq<Seq<char>> {
    choices.map_values(|c: OptionChoice| c.value@)
}

impl OptionValue {
    /// The value a text means for an option.
    pub fn from_text(option: &InstallOption, given: &str) -> (r: Option<OptionValue>)
        ensures
            text::option_view(r) == value_from(*option, given@),
    {
        match option.kind {
            OptionKind::Boolean => {
                let word = text::lower_of(given);
                if text::same(word.as_str(), "true") || text::same(word.as_str(), "on") {
                    Some(OptionValue::Bool(true))
                } else if text::same(word.as_str(), "false") || text::same(word.as_str(), "off") {
                    Some(OptionValue::Bool(false))
                } else {
                    None
                }
            },
            OptionKind::Choice => {
                let mut i: usize = 0;
                while i < option.choices.len()
                    invariant
                        i <= option.choices@.len(),
                        option.kind == OptionKind::Choice,
                        forall|j: int|
                            0 <= j < i ==> !choice_is(given@)(#[trigger] option.choices@[j]),
                    decreases option.choices@.len() - i,
                {
                    if text::same_folded(option.choices[i].value.as_str(), given) {
                        proof {
                            crate::lists::lemma_first_at(
                                option.choices@,
                                choice_is(given@),
                                i as int,
                            );
                        }
                        return Some(OptionValue::Choice(option.choices[i].value.clone()));
                    }
                    i = i + 1;
                }
                proof {
                    crate::lists::lemma_first_none(option.choices@, choice_is(given@));
                }
                None
            },
        }
    }
}

impl InstallOption {
    /// The declared default.
    pub fn default_value(&self) -> (r: OptionValue)
        ensures
            r@ == default_of(*self),
    {
        match self.kind {
            OptionKind::Boolean => OptionValue::Bool(self.default),
            OptionKind::Choice => OptionValue::Choice(self.default_choice.clone()),
        }
    }

    /// The values the option takes, as a message lists them.
    pub fn accepted_values(&self) -> (r: Vec<String>)
        ensures
            text::views(r@) == accepted(*self),
    {
        let mut out: Vec<String> = Vec::new();
        match self.kind {
            OptionKind::Boolean => {
                out.push(text::owned("on"));
                out.push(text::owned("off"));
                assert(text::views(out@) =~= accepted(*self));
            },
            OptionKind::Choice => {
                let mut i: usize = 0;
                while i < self.choices.len()
                    invariant
                        i <= self.choices@.len(),
                        self.kind == OptionKind::Choice,
                        text::views(out@) == choice_texts(self.choices@.take(i as int)),
                    decreases self.choices@.len() - i,
                {
                    let value = self.choices[i].value.clone();
                    proof {
                        text::lemma_views_push(out@, value);
                    }
                    out.push(value);
                    i = i + 1;
                    assert(choice_texts(self.choices@.take(i as int)) =~= choice_texts(
                        self.choices@.take(i - 1),
                    ).push(value@));
                }
                assert(self.choices@.take(i as int) =~= self.choices@);
            },
        }
        out
    }
}

/// The product a package installs.
#[derive(Debug, Clone, PartialEq, Eq, Default)]
pub struct Package {
    pub id: String,
    pub name: String,
    pub version: String,
    pub publisher: String,
    pub description: String,
    pub website_url: String,
    pub help_url: String,
}

/// Where a package installs.
#[derive(Debug, Clone, PartialEq, Eq, Default)]
pub struct Install {
    /// The scopes the package may be installed in, the preferred one first.
    pub scopes: Vec<Scope>,
    /// Template of the install root in user scope; empty where the package
    /// has no user scope.
    pub user_root: String,
    /// Template of the install root in machine scope; empty where the package
    /// has no machine scope.
    pub machine_root: String,
    /// The size of what is installed, in bytes.
    pub estimated_size: u64,
}

/// One file of the payload.
#[derive(Debug, Clone, PartialEq, Eq, Default)]
pub struct File {
    /// Install-relative path with forward slashes.
    pub path: String,
    pub size: u64,
    /// The payload entry that holds it.
    pub entry: String,
    pub when: Option<Predicate>,
}

#[derive(Debug, Clone, PartialEq, Eq, Default)]
pub struct Directory {
    /// Install-relative path with forward slashes.
    pub path: String,
}

/// A directory the package puts on PATH.
#[derive(Debug, Clone, PartialEq, Eq, Default)]
pub struct PathEntry {
    pub path: String,
    /// The older spelling of a predicate: while this option is on.
    pub option: String,
    pub when: Option<Predicate>,
}

#[derive(Debug, Clone, Copy, PartialEq, Eq, Structural, Default)]
pub enum RegistryKind {
    #[default]
    Unspecified,
    String,
    ExpandString,
    Dword,
}

/// The hive an explicit registry location names.
#[derive(Debug, Clone, Copy, PartialEq, Eq, Structural, Default)]
pub enum RegistryRoot {
    /// No explicit location: the scope's software root.
    #[default]
    Software,
    CurrentUser,
    LocalMachine,
    /// A root this engine does not know.
    Unknown,
}

impl RegistryRoot {
    pub open spec fn name(self) -> Seq<char> {
        match self {
            RegistryRoot::Software => "Software"@,
            RegistryRoot::CurrentUser => "HKCU"@,
            RegistryRoot::LocalMachine => "HKLM"@,
            RegistryRoot::Unknown => "unknown"@,
        }
    }

    /// The root as a message names it.
    pub fn as_str(self) -> (r: &'static str)
        ensures
            r@ == self.name(),
    {
        match self {
            RegistryRoot::Software => "Software",
            RegistryRoot::CurrentUser => "HKCU",
            RegistryRoot::LocalMachine => "HKLM",
            RegistryRoot::Unknown => "unknown",
        }
    }
}

/// A registry value of the product.
#[derive(Debug, Clone, PartialEq, Eq, Default)]
pub struct RegistryValue {
    /// Relative to the scope's software root, or to the hive of an explicit
    /// root.
    pub key: String,
    pub name: String,
    pub kind: RegistryKind,
    pub data: String,
    pub when: Option<Predicate>,
    pub root: RegistryRoot,
}

/// An environment variable of the product.
#[derive(Debug, Clone, PartialEq, Eq, Default)]
pub struct EnvironmentVariable {
    pub name: String,
    pub value: String,
    pub expandable: bool,
    pub when: Option<Predicate>,
}

#[derive(Debug, Clone, Copy, PartialEq, Eq, Structural, Default)]
pub enum ShortcutLocation {
    #[default]
    StartMenu,
    Desktop,
    Startup,
    SendTo,
}

#[derive(Debug, Clone, PartialEq, Eq, Default)]
pub struct Shortcut {
    pub location: ShortcutLocation,
    /// A subfolder of the location.
    pub folder: String,
    pub name: String,
    pub target: String,
    pub arguments: String,
    pub description: String,
    pub icon: String,
    pub working_directory: String,
    pub app_user_model_id: String,
    /// An Internet shortcut opens this instead of a target.
    pub url: String,
    /// The older spelling of a predicate: while this option is on.
    pub option: String,
    pub when: Option<Predicate>,
}

#[derive(Debug, Clone, Copy, PartialEq, Eq, Structural, Default)]
pub enum FirewallDirection {
    #[default]
    In,
    Out,
}

#[derive(Debug, Clone, Copy, PartialEq, Eq, Structural, Default)]
pub enum FirewallAction {
    #[default]
    Allow,
    Block,
}

#[derive(Debug, Clone, Copy, PartialEq, Eq, Structural, Default)]
pub enum FirewallProtocol {
    #[default]
    Any,
    Tcp,
    Udp,
}

#[derive(Debug, Clone, PartialEq, Eq, Default)]
pub struct FirewallRule {
    pub name: String,
    pub description: String,
    /// Install-relative path of the program.
    pub program: String,
    pub direction: FirewallDirection,
    pub action: FirewallAction,
    pub protocol: FirewallProtocol,
    pub local_ports: String,
    pub when: Option<Predicate>,
}

#[derive(Debug, Clone, PartialEq, Eq, Default)]
pub struct FileAssociation {
    pub prog_id: String,
    pub extensions: Vec<String>,
    pub description: String,
    pub icon: String,
    pub executable: String,
    pub arguments: String,
    pub when: Option<Predicate>,
}

#[derive(Debug, Clone, PartialEq, Eq, Default)]
pub struct UrlProtocol {
    pub scheme: String,
    pub prog_id: String,
    pub description: String,
    pub icon: String,
    pub executable: String,
    pub arguments: String,
    pub when: Option<Predicate>,
}

#[derive(Debug, Clone, PartialEq, Eq, Default)]
pub struct AppPath {
    pub executable: String,
    pub add_directory: bool,
    pub when: Option<Predicate>,
}

#[derive(Debug, Clone, Copy, PartialEq, Eq, Structural, Default)]
pub enum ContextMenuTarget {
    #[default]
    Files,
    Directories,
    DirectoryBackground,
}

#[derive(Debug, Clone, PartialEq, Eq, Default)]
pub struct ContextMenuVerb {
    pub target: ContextMenuTarget,
    pub verb: String,
    pub label: String,
    pub executable: String,
    pub arguments: String,
    pub icon: String,
    pub extensions: Vec<String>,
    pub when: Option<Predicate>,
}

/// The Add/Remove Programs registration. An empty text is a field the
/// package leaves to its default.
#[derive(Debug, Clone, PartialEq, Eq, Default)]
pub struct Registration {
    pub key: String,
    pub display_name: String,
    pub display_version: String,
    pub display_icon: String,
}

/// The installation a product replaces.
#[derive(Debug, Clone, PartialEq, Eq, Default)]
pub struct Legacy {
    /// The name of its Add/Remove Programs key.
    pub registration_key: String,
    pub installer_type: String,
}

/// The program the wizard offers to start after an installation.
#[derive(Debug, Clone, PartialEq, Eq, Default)]
pub struct Launch {
    pub executable: String,
    pub arguments: Vec<String>,
    /// `None` for the program's own directory, empty for the install root.
    pub working_directory: Option<String>,
    pub checked: bool,
}

/// How a dependency is looked for.
#[derive(Debug, Clone, Copy, PartialEq, Eq, Structural)]
pub enum DetectorKind {
    /// A directory of subdirectories named by their versions.
    DirectoryVersion,
    /// A registry value that holds the version.
    RegistryVersion,
    /// The version a file states.
    FileVersion,
    /// An Add/Remove Programs entry.
    Registration,
    /// A kind this engine does not know.
    Unknown(i32),
}

impl Default for DetectorKind {
    fn default() -> (r: DetectorKind)
        ensures
            r == DetectorKind::Unknown(0),
    {
        DetectorKind::Unknown(0)
    }
}

/// How a dependency is looked for.
#[derive(Debug, Clone, PartialEq, Eq, Default)]
pub struct Detector {
    pub kind: DetectorKind,
    /// The template of a directory or a file.
    pub path: String,
    /// What a subdirectory or an entry must be named; empty for anything.
    pub pattern: String,
    /// The registry keys to look in.
    pub keys: Vec<String>,
    /// The registry value that holds the version.
    pub value: String,
}

/// Where the installer of a dependency comes from.
#[derive(Debug, Clone, Copy, PartialEq, Eq, Structural, Default)]
pub enum AcquisitionSource {
    #[default]
    Unspecified,
    Winget,
    Url,
    Embedded,
}

/// How the installer of a dependency is acquired.
#[derive(Debug, Clone, PartialEq, Eq, Default)]
pub struct Acquisition {
    pub source: AcquisitionSource,
    pub url: String,
    pub sha256: String,
    pub version: String,
    pub installer_type: String,
    /// The payload entry of an embedded installer.
    pub entry: String,
    pub size: u64,
    /// The catalog's name of the package; empty for the dependency's id.
    pub package_identifier: String,
    /// Empty for `x64`.
    pub architecture: String,
    /// When the hint was resolved, in seconds since 1970.
    pub resolved_at: i64,
    /// How long the hint is good for; 0 for ever.
    pub max_age_days: u32,
}

/// How the installer of a dependency is run.
#[derive(Debug, Clone, PartialEq, Eq, Default)]
pub struct InstallCommand {
    pub arguments: Vec<String>,
    pub success_codes: Vec<i32>,
    pub reboot_codes: Vec<i32>,
    /// The package manifest declared it; else it was resolved.
    pub declared: bool,
}

/// A product another product needs.
#[derive(Debug, Clone, PartialEq, Eq, Default)]
pub struct Dependency {
    pub id: String,
    /// Empty for the id.
    pub display_name: String,
    /// Empty when any version will do.
    pub minimum_version: String,
    pub detect: Detector,
    pub acquisition: Acquisition,
    pub install: InstallCommand,
    pub elevation_required: bool,
    pub when: Option<Predicate>,
}

/// What a package declares.
#[derive(Debug, Clone, PartialEq, Eq, Default)]
pub struct Metadata {
    pub package: Package,
    pub install: Install,
    pub files: Vec<File>,
    pub directories: Vec<Directory>,
    pub options: Vec<InstallOption>,
    pub path_entries: Vec<PathEntry>,
    pub registry_values: Vec<RegistryValue>,
    pub environment_variables: Vec<EnvironmentVariable>,
    pub shortcuts: Vec<Shortcut>,
    pub firewall_rules: Vec<FirewallRule>,
    pub file_associations: Vec<FileAssociation>,
    pub url_protocols: Vec<UrlProtocol>,
    pub app_paths: Vec<AppPath>,
    pub context_menu_verbs: Vec<ContextMenuVerb>,
    pub registration: Registration,
    pub legacy: Option<Legacy>,
    pub launch: Option<Launch>,
    pub actions: Vec<Action>,
    pub quiescence: Vec<Quiescence>,
    pub dependencies: Vec<Dependency>,
}

/// Holds of the option named `name`.
pub open spec fn option_is(name: Seq<char>) -> spec_fn(InstallOption) -> bool {
    |o: InstallOption| text::lower(o.name@) == text::lower(name)
}

impl Metadata {
    /// The declared option of a name.
    pub open spec fn declared(self, name: Seq<char>) -> Option<InstallOption> {
        crate::lists::first(self.options@, option_is(name))
    }

    /// The declared option of a name, without regard to case.
    pub fn option(&self, name: &str) -> (r: Option<&InstallOption>)
        ensures
            match r {
                Some(o) => self.declared(name@) == Some(*o),
                None => self.declared(name@) is None,
            },
    {
        let mut i: usize = 0;
        while i < self.options.len()
            invariant
                i <= self.options@.len(),
                forall|j: int| 0 <= j < i ==> !option_is(name@)(#[trigger] self.options@[j]),
            decreases self.options@.len() - i,
        {
            if text::same_folded(self.options[i].name.as_str(), name) {
                proof {
                    crate::lists::lemma_first_at(self.options@, option_is(name@), i as int);
                }
                return Some(&self.options[i]);
            }
            i = i + 1;
        }
        proof {
            crate::lists::lemma_first_none(self.options@, option_is(name@));
        }
        None
    }

    /// The name of the Add/Remove Programs key.
    pub open spec fn key_name(self) -> Seq<char> {
        if self.registration.key@.len() == 0 {
            self.package.id@
        } else {
            self.registration.key@
        }
    }

    /// The name of the Add/Remove Programs key: the one the package declares,
    /// or its id.
    pub fn registration_key_name(&self) -> (r: &str)
        ensures
            r@ == self.key_name(),
    {
        if self.registration.key.as_str().is_empty() {
            self.package.id.as_str()
        } else {
            self.registration.key.as_str()
        }
    }
}

/// The value a client spells on a command line reads back as itself.
pub proof fn lemma_boolean_spelling(option: InstallOption, value: bool)
    requires
        option.kind == OptionKind::Boolean,
    ensures
        value_from(option, if value { "on"@ } else { "off"@ }) == Some(OptionView::Bool(value)),
        value_from(option, OptionView::Bool(value).text()) == Some(OptionView::Bool(value)),
{
    reveal_strlit("on");
    reveal_strlit("off");
    reveal_strlit("true");
    reveal_strlit("false");
    assert(text::lower("on"@) =~= "on"@);
    assert(text::lower("off"@) =~= "off"@);
    assert(text::lower("true"@) =~= "true"@);
    assert(text::lower("false"@) =~= "false"@);
    assert("on"@.len() == 2 && "off"@.len() == 3 && "true"@.len() == 4 && "false"@.len() == 5);
}

}
