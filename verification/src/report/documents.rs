//! The documents a run produces, as plain values.

use vstd::prelude::*;

use crate::action::definition::Action;
use crate::metadata::{InstallOption, Launch, OptionKind, OptionValue, OptionView};
use crate::metadata;
use crate::report::exit;
use crate::report::Finding;
use crate::text;

verus! {

/// The schema number of every document this engine emits.
pub const SCHEMA: u32 = 1;

/// The phases a client can show progress for.
#[derive(Debug, Clone, Copy, PartialEq, Eq, Structural)]
pub enum Phase {
    /// Reconciling an earlier transaction before the run's own work.
    Recovery,
    /// Detecting, acquiring and installing dependencies.
    Dependencies,
    /// Removing the legacy installation (uninstall-first migration).
    Legacy,
    /// Preparing the state directory and the plan.
    Preparing,
    /// Applying the transaction's operations.
    Applying,
    /// Running a custom action of the package.
    Actions,
    /// Committing and cleaning up.
    Finishing,
    /// Undoing after a failure or a cancellation.
    RollingBack,
}

/// Where a run is, for a progress display: the phase, how many of its steps
/// are done, and what it is working on.
#[derive(Debug, PartialEq, Eq)]
pub struct Progress {
    pub phase: Phase,
    /// Steps completed in the phase (operations applied, bytes downloaded).
    pub done: u64,
    /// Steps in the phase; 0 when unknown.
    pub total: u64,
    /// What is being worked on: an install-relative path, a dependency name,
    /// a URL. Empty when there is nothing to name.
    pub target: String,
}

/// One event: a stable code, a message for the log, and progress where the
/// event moves a run along.
#[derive(Debug, PartialEq, Eq)]
pub struct Event {
    pub code: &'static str,
    pub message: String,
    pub progress: Option<Progress>,
}

/// How the Restart Manager classified a holder, which is what decides whether
/// asking it to close can work at all: Windows closes a windowed application
/// by messaging its windows, a console application with a console control
/// event, and an application it found no window for it cannot ask at all.
#[derive(Debug, Clone, Copy, PartialEq, Eq, Structural)]
pub enum HolderKind {
    /// The Restart Manager found no window and no service: a graceful request
    /// has nothing to reach, so such a holder will not close for one.
    Unknown,
    MainWindow,
    OtherWindow,
    Service,
    Explorer,
    Console,
    /// A critical system process, which is never asked.
    Critical,
}

impl HolderKind {
    /// The word the log and the in-use message carry.
    pub open spec fn name(self) -> Seq<char> {
        match self {
            HolderKind::Unknown => "no window"@,
            HolderKind::MainWindow => "main window"@,
            HolderKind::OtherWindow => "other window"@,
            HolderKind::Service => "service"@,
            HolderKind::Explorer => "explorer"@,
            HolderKind::Console => "console"@,
            HolderKind::Critical => "critical"@,
        }
    }

    /// The word the log and the in-use message carry.
    pub fn as_str(self) -> (r: &'static str)
        ensures
            r@ == self.name(),
    {
        match self {
            HolderKind::Unknown => "no window",
            HolderKind::MainWindow => "main window",
            HolderKind::OtherWindow => "other window",
            HolderKind::Service => "service",
            HolderKind::Explorer => "explorer",
            HolderKind::Console => "console",
            HolderKind::Critical => "critical",
        }
    }
}

/// One application holding a file a run has to replace or remove, as the
/// Restart Manager names it.
#[derive(Debug, PartialEq, Eq)]
pub struct HolderInfo {
    /// The application's friendly name, or its executable.
    pub name: String,
    pub process_id: u32,
    /// It asked Windows to start it again after the installation.
    pub restartable: bool,
    /// What the Restart Manager can do with it, which is why a holder that
    /// refuses to close and one Windows could never ask read differently.
    pub kind: HolderKind,
    /// When the process started, so that a process id reused after the holder
    /// exits is not mistaken for the holder.
    pub started_at: u64,
}

impl HolderInfo {
    /// A copy of the holder.
    pub fn copy(&self) -> (r: HolderInfo)
        ensures
            r == *self,
    {
        HolderInfo {
            name: self.name.clone(),
            process_id: self.process_id,
            restartable: self.restartable,
            kind: self.kind,
            started_at: self.started_at,
        }
    }
}

/// Something the engine may not decide on its own. A question is asked only
/// where the answer changes what happens to the user's machine, and it is
/// always asked before anything is mutated.
#[derive(Debug, PartialEq, Eq)]
pub enum Question<'a> {
    /// These applications hold files the run must replace or remove.
    /// Answering [`Answer::Close`] asks Windows to close them and start them
    /// again afterwards; [`Answer::Cancel`] leaves the machine alone.
    CloseApplications(&'a Vec<HolderInfo>),
}

/// A client's answer to a [`Question`].
#[derive(Debug, Clone, Copy, PartialEq, Eq, Structural)]
pub enum Answer {
    Close,
    Cancel,
}

/// The committed installation as the documents report it.
#[derive(Debug, PartialEq, Eq)]
pub struct InstallationInfo {
    pub id: String,
    pub product_id: String,
    pub version: String,
    pub scope: String,
    pub install_root: String,
    pub state_db: String,
    pub file_count: u64,
    pub committed_at: String,
    /// The licence text a person explicitly accepted for this installation;
    /// `None` when no run recorded one — an unattended install or upgrade
    /// never does.
    pub accepted_license_sha256: Option<String>,
}

/// An open or just-finished transaction as the documents report it.
#[derive(Debug, PartialEq, Eq)]
pub struct TransactionInfo {
    pub id: String,
    pub kind: &'static str,
    pub state: &'static str,
    pub from_version: Option<String>,
    pub to_version: Option<String>,
    pub recovery_direction: Option<&'static str>,
}

/// What the migration phase did with the installation the product replaces.
#[derive(Debug, PartialEq, Eq)]
pub struct LegacyInfo {
    /// The Add/Remove Programs key the legacy installer had registered.
    pub key: String,
    /// Its uninstaller ran and the key is gone.
    pub uninstalled: bool,
}

/// What a recovery did before the run's own work.
#[derive(Debug, PartialEq, Eq)]
pub struct RecoveryInfo {
    pub direction: &'static str,
    pub operations_reapplied: u32,
    pub operations_rolled_back: u32,
}

/// The package as `inspect` describes it.
#[derive(Debug, PartialEq, Eq)]
pub struct PackageInfo {
    pub id: String,
    pub name: String,
    pub version: String,
    pub publisher: String,
    pub scopes: Vec<&'static str>,
    /// The declared options, so a caller knows what `--option` takes.
    pub options: Vec<OptionInfo>,
    /// The declared custom actions, so that a package that runs arbitrary
    /// programs says so wherever it is described.
    pub actions: Vec<ActionDeclaration>,
    /// The program the wizard's completion page offers to start.
    pub launch: Option<LaunchDeclaration>,
    pub metadata_sha256: String,
    pub engine: EngineInfo,
}

/// The launch after install as `inspect` describes it: the install-relative
/// program, the argument templates, the working directory — `None` for the
/// program's own, empty for the install root — and the check box's initial
/// state.
#[derive(Debug, PartialEq, Eq)]
pub struct LaunchDeclaration {
    pub executable: String,
    pub arguments: Vec<String>,
    pub working_directory: Option<String>,
    pub checked: bool,
}

impl LaunchDeclaration {
    /// Whether it describes a declared launch.
    pub open spec fn tells(self, launch: Launch) -> bool {
        &&& self.executable@ == launch.executable@
        &&& text::views(self.arguments@) == text::views(launch.arguments@)
        &&& self.working_directory == launch.working_directory
        &&& self.checked == launch.checked
    }

    /// The declared launch.
    pub fn of(launch: &Launch) -> (r: LaunchDeclaration)
        ensures
            r.tells(*launch),
    {
        LaunchDeclaration {
            executable: launch.executable.clone(),
            arguments: text::copy_list(&launch.arguments),
            working_directory: launch.working_directory.clone(),
            checked: launch.checked,
        }
    }
}

/// One declared option as the documents describe it.
#[derive(Debug, PartialEq, Eq)]
pub struct OptionInfo {
    pub name: String,
    /// `boolean` or `choice`.
    pub kind: &'static str,
    /// `true`/`false` for a boolean, the choice value for a choice.
    pub default: OptionValue,
    /// The declared choice values, in order; empty for a boolean.
    pub choices: Vec<String>,
}

impl OptionInfo {
    /// Whether it describes a declared option.
    pub open spec fn tells(self, option: InstallOption) -> bool {
        &&& self.name@ == text::lower(option.name@)
        &&& self.kind@ == match option.kind {
            OptionKind::Boolean => "boolean"@,
            OptionKind::Choice => "choice"@,
        }
        &&& self.default@ == metadata::default_of(option)
        &&& text::views(self.choices@) == metadata::choice_texts(option.choices@)
    }

    /// The declared option.
    pub fn of(option: &InstallOption) -> (r: OptionInfo)
        ensures
            r.tells(*option),
    {
        let mut choices: Vec<String> = Vec::new();
        let mut i: usize = 0;
        while i < option.choices.len()
            invariant
                i <= option.choices@.len(),
                choices@.len() == i,
                forall|j: int| 0 <= j < i ==> #[trigger] choices@[j]@ == option.choices@[j].value@,
            decreases option.choices@.len() - i,
        {
            choices.push(option.choices[i].value.clone());
            i = i + 1;
        }
        assert(text::views(choices@) =~= metadata::choice_texts(option.choices@));
        OptionInfo {
            name: text::lower_of(option.name.as_str()),
            kind: match option.kind {
                OptionKind::Boolean => "boolean",
                OptionKind::Choice => "choice",
            },
            default: option.default_value(),
            choices,
        }
    }
}

/// The engine of an installer.
#[derive(Debug, PartialEq, Eq)]
pub struct EngineInfo {
    /// From the metadata: the version that built this installer.
    pub tigersetup_version: String,
    /// From the metadata: the hash of the engine executable it was built
    /// from.
    pub engine_sha256: String,
    /// Computed from this file: the hash of its engine block, the executable
    /// after the builder gave it the product's identity and icon.
    pub engine_block_sha256: String,
}

/// What the dependency phase did with one declared dependency.
#[derive(Debug, PartialEq, Eq)]
pub struct DependencyInfo {
    pub id: String,
    pub name: String,
    /// `present`, `installed`, `missing`, `unacquirable`, `install_failed`,
    /// `unverified`, `requires_elevation` or `cancelled`.
    pub status: &'static str,
    /// `detected`, `installed`, `reboot_required` or `none`.
    pub action: &'static str,
    pub version: Option<String>,
    pub url: Option<String>,
    pub sha256: Option<String>,
    /// The dependency installer's exit code, where one was obtained.
    pub exit_code: Option<i32>,
    /// Why acquisition failed, beside an `unacquirable` status.
    pub reason: Option<&'static str>,
    /// The stable failure code, where this dependency stopped the run.
    pub code: Option<&'static str>,
}

/// The current detection result of one declared dependency, for `inspect`.
#[derive(Debug, PartialEq, Eq)]
pub struct DependencyStatus {
    pub id: String,
    pub name: String,
    /// Empty when the dependency accepts any version.
    pub minimum_version: String,
    /// `present` or `absent`.
    pub status: &'static str,
    pub version: Option<String>,
    /// Where a missing dependency's installer comes from: `winget`, `url`,
    /// `embedded` or `none`.
    pub source: &'static str,
    /// The installer this package carries for the dependency, when embedded.
    pub embedded: Option<EmbeddedInstallerInfo>,
}

/// An embedded dependency installer: which payload entry holds it and what
/// its bytes must hash to, so a reader can verify what the package carries.
#[derive(Debug, PartialEq, Eq)]
pub struct EmbeddedInstallerInfo {
    pub entry: String,
    pub sha256: String,
    pub size: u64,
}

/// One declared custom action as `inspect` describes it: what the package
/// will run, at which phase, on which operations, and the identity of a
/// packaged program.
#[derive(Debug, PartialEq, Eq)]
pub struct ActionDeclaration {
    pub name: String,
    pub phase: &'static str,
    pub run_on: Vec<&'static str>,
    pub kind: &'static str,
    /// The command template, or the packaged file name.
    pub program: String,
    pub packaged: Option<EmbeddedInstallerInfo>,
    pub arguments: Vec<String>,
    pub timeout_seconds: u32,
    pub success_codes: Vec<i32>,
    pub reboot_codes: Vec<i32>,
    pub on_failure: &'static str,
    pub when: Option<PredicateInfo>,
}

/// A resource's predicate as the documents spell it.
#[derive(Debug, PartialEq, Eq)]
pub struct PredicateInfo {
    pub option: String,
    pub equals: String,
}

impl ActionDeclaration {
    /// Whether it describes a declared action.
    pub open spec fn tells(self, action: Action) -> bool {
        &&& self.name@ == action.name@
        &&& self.phase@ == action.phase.name()
        &&& self.run_on@.len() == action.run_on@.len()
        &&& forall|i: int|
            0 <= i < self.run_on@.len() ==> (#[trigger] self.run_on@[i])@
                == action.run_on@[i].name()
        &&& self.kind@ == action.kind.name()
        &&& self.program@ == if action.entry@.len() == 0 {
            action.command@
        } else {
            action.file_name@
        }
        &&& match self.packaged {
            Some(p) => action.entry@.len() > 0 && p.entry@ == action.entry@ && p.sha256@
                == action.sha256@ && p.size == action.size,
            None => action.entry@.len() == 0,
        }
        &&& text::views(self.arguments@) == text::views(action.arguments@)
        &&& self.timeout_seconds == action.timeout_seconds
        &&& self.success_codes@ == action.successes()
        &&& self.reboot_codes@ == action.reboot_codes@
        &&& self.on_failure@ == action.on_failure.name()
        &&& match (self.when, action.when) {
            (Some(a), Some(b)) => a.option@ == b.option@ && a.equals@ == b.equals@,
            (None, None) => true,
            _ => false,
        }
    }

    /// The declared action.
    pub fn of(action: &Action) -> (r: ActionDeclaration)
        ensures
            r.tells(*action),
    {
        let mut run_on: Vec<&'static str> = Vec::new();
        let mut i: usize = 0;
        while i < action.run_on.len()
            invariant
                i <= action.run_on@.len(),
                run_on@.len() == i,
                forall|j: int|
                    0 <= j < i ==> (#[trigger] run_on@[j])@ == action.run_on@[j].name(),
            decreases action.run_on@.len() - i,
        {
            run_on.push(action.run_on[i].as_str());
            i = i + 1;
        }
        let mut success_codes = crate::lists::copy_codes(&action.success_codes);
        if success_codes.len() == 0 {
            success_codes.push(0);
            assert(success_codes@ =~= seq![0i32]);
        }
        let packaged = if action.is_packaged() {
            Some(
                EmbeddedInstallerInfo {
                    entry: action.entry.clone(),
                    sha256: action.sha256.clone(),
                    size: action.size,
                },
            )
        } else {
            None
        };
        ActionDeclaration {
            name: action.name.clone(),
            phase: action.phase.as_str(),
            run_on,
            kind: action.kind.as_str(),
            program: if action.is_packaged() {
                action.file_name.clone()
            } else {
                action.command.clone()
            },
            packaged,
            arguments: text::copy_list(&action.arguments),
            timeout_seconds: action.timeout_seconds,
            success_codes,
            reboot_codes: crate::lists::copy_codes(&action.reboot_codes),
            on_failure: action.on_failure.as_str(),
            when: match &action.when {
                Some(w) => Some(
                    PredicateInfo { option: w.option.clone(), equals: w.equals.clone() },
                ),
                None => None,
            },
        }
    }
}

/// What a run did with one custom action, in the order the actions ran.
#[derive(Debug, PartialEq, Eq)]
pub struct ActionInfo {
    pub name: String,
    pub phase: &'static str,
    /// The lifecycle operation the run was.
    pub operation: &'static str,
    pub kind: &'static str,
    /// The program or script as it was run, resolved.
    pub program: String,
    /// `completed`, `failed`, `failed_continued`, `timed_out`,
    /// `launch_failed` or `interrupted`.
    pub status: &'static str,
    pub exit_code: Option<i32>,
    pub reboot_required: bool,
    pub duration_ms: u64,
    pub timeout_seconds: u32,
    pub on_failure: &'static str,
    /// The stable failure code, where this action stopped the run.
    pub code: Option<&'static str>,
    /// The tail of what the program wrote; the log carries more.
    pub stdout: String,
    pub stderr: String,
    /// The hash of a packaged program, verified before it ran.
    pub sha256: Option<String>,
}

/// An uninstall-phase action the installation carries for its own future
/// uninstall, as the documents list it.
#[derive(Debug, PartialEq, Eq)]
pub struct OwnedActionInfo {
    pub name: String,
    pub phase: String,
    pub sha256: Option<String>,
    pub file_name: Option<String>,
}

/// One recorded option.
#[derive(Debug, PartialEq, Eq)]
pub struct RecordedOption {
    /// Lower-case name.
    pub name: String,
    pub value: OptionValue,
}

/// What the database says the installation owns besides its files.
#[derive(Debug, PartialEq, Eq)]
pub struct OwnedResources {
    /// The recorded installer options, by lower-case name.
    pub options: Vec<RecordedOption>,
    pub registration_key: Option<String>,
    /// `<key>\<name>` of every owned registry value, the registration's
    /// included.
    pub registry_values: Vec<String>,
    /// The exact text of every owned PATH entry, with the environment key it
    /// lives in.
    pub path_entries: Vec<PathEntryInfo>,
    /// The absolute path of every owned `.lnk` and `.url`.
    pub shortcuts: Vec<String>,
    /// Every environment variable the engine set.
    pub environment_variables: Vec<EnvironmentVariableInfo>,
    /// The name of every firewall rule the engine created.
    pub firewall_rules: Vec<String>,
    /// The uninstall-phase actions the installation keeps for its own
    /// uninstall, with the programs the state directory holds for them.
    pub actions: Vec<OwnedActionInfo>,
}

#[derive(Debug, PartialEq, Eq)]
pub struct PathEntryInfo {
    pub hive_key: String,
    pub entry: String,
    /// An equivalent entry existed before: the engine never claimed it.
    pub pre_existed: bool,
}

#[derive(Debug, PartialEq, Eq)]
pub struct EnvironmentVariableInfo {
    pub hive_key: String,
    pub name: String,
    /// The variable held a value before the engine wrote it; a removal
    /// restores that value.
    pub pre_existed: bool,
}

/// One declared integration — a file association, URL protocol, `App Paths`
/// entry, context-menu verb or the product's capability registration — as the
/// machine holds it for the installed product.
#[derive(Debug, PartialEq, Eq)]
pub struct IntegrationStatus {
    /// `file_association`, `url_protocol`, `app_path`, `context_menu` or
    /// `capabilities`.
    pub kind: &'static str,
    /// The ProgID, the scheme, the executable name, `<target>:<verb>` or the
    /// product name.
    pub id: String,
    /// Whether the recorded options enable it.
    pub enabled: bool,
    /// The registry values it consists of when enabled, how many hold the
    /// intended data now, and how many the installation owns.
    pub values_total: usize,
    pub values_present: usize,
    pub values_owned: usize,
}

/// How much of each owned resource kind `verify` looked at and how much of it
/// was as the database records it.
#[derive(Debug, Clone, Copy, PartialEq, Eq, Structural, Default)]
pub struct VerifyCounts {
    pub files_checked: u64,
    pub files_ok: u64,
    pub directories_checked: u64,
    pub directories_ok: u64,
    pub registry_values_checked: u64,
    pub registry_values_ok: u64,
    pub path_entries_checked: u64,
    pub path_entries_ok: u64,
    pub shortcuts_checked: u64,
    pub shortcuts_ok: u64,
    pub registration_values_checked: u64,
    pub registration_values_ok: u64,
    pub environment_variables_checked: u64,
    pub environment_variables_ok: u64,
    pub firewall_rules_checked: u64,
    pub firewall_rules_ok: u64,
    /// The stored programs of the installation's uninstall actions.
    pub action_programs_checked: u64,
    pub action_programs_ok: u64,
}

/// What `verify` reports.
#[derive(Debug, PartialEq, Eq)]
pub struct VerifyReport {
    pub schema: u32,
    pub status: &'static str,
    pub installation: Option<InstallationInfo>,
    pub transaction: Option<TransactionInfo>,
    pub findings: Vec<Finding>,
    pub counts: VerifyCounts,
    /// Every declared integration as the machine holds it; a value that is
    /// owned but not present is also a `registry_value_missing` finding.
    pub integrations: Vec<IntegrationStatus>,
}

impl VerifyReport {
    /// The exit code of a verification.
    pub fn exit_code(&self) -> (r: i32)
        ensures
            r == if self.status@ == "ok"@ {
                exit::OK
            } else {
                exit::ROLLED_BACK
            },
    {
        if text::same(self.status, "ok") {
            exit::OK
        } else {
            exit::ROLLED_BACK
        }
    }
}

/// An installation of the product a machine holds.
#[derive(Debug, PartialEq, Eq)]
pub struct ExistingInstallation {
    pub scope: &'static str,
    pub version: String,
    pub install_root: String,
}

/// What `inspect` reports.
#[derive(Debug, PartialEq, Eq)]
pub struct InspectReport {
    pub schema: u32,
    pub package: PackageInfo,
    pub installation: Option<InstallationInfo>,
    /// Present exactly when `installation` is.
    pub owned: Option<OwnedResources>,
    pub transaction: Option<TransactionInfo>,
    /// Every installation of the product this machine holds, in either scope,
    /// so a caller can see the one it did not ask about.
    pub installations: Vec<ExistingInstallation>,
    /// Every declared dependency as this machine currently answers it.
    pub dependencies: Vec<DependencyStatus>,
    /// Every declared integration as this machine holds it, for an installed
    /// product.
    pub integrations: Vec<IntegrationStatus>,
    pub findings: Vec<Finding>,
}

/// The outcome document of a mutating run.
#[derive(Debug, PartialEq, Eq)]
pub struct Outcome {
    pub schema: u32,
    pub outcome: &'static str,
    pub code: String,
    pub exit_code: i32,
    pub message: String,
    pub installation: Option<InstallationInfo>,
    pub transaction: Option<TransactionInfo>,
    pub recovery: Option<RecoveryInfo>,
    /// Present when the package declares an installation to migrate from and
    /// this machine held one.
    pub legacy: Option<LegacyInfo>,
    /// The applications the run closed and restarted for the file set.
    pub closed_applications: Vec<HolderInfo>,
    /// Every declared dependency the run considered, in declaration order.
    pub dependencies: Vec<DependencyInfo>,
    /// Every custom action the run executed, in order.
    pub actions: Vec<ActionInfo>,
    /// A dependency installer or a custom action asked for a restart; the
    /// product is installed.
    pub reboot_required: bool,
    /// The dependency that stopped the run.
    pub dependency: Option<String>,
    /// Why acquisition failed, beside `dependency_unacquirable`.
    pub reason: Option<&'static str>,
    /// The installations a `scope_conflict` or `scope_ambiguous` refusal was
    /// decided from, so the caller can name the scope it meant.
    pub existing_installations: Vec<ExistingInstallation>,
    pub findings: Vec<Finding>,
    pub log: Option<String>,
    pub duration_ms: u64,
    /// What the wizard's completion page did with the package's launch offer,
    /// once the run had ended installed. Never part of the run's result.
    pub launch: Option<LaunchInfo>,
}

/// The launch after install as the outcome document reports it.
#[derive(Debug, PartialEq, Eq)]
pub struct LaunchInfo {
    /// `started`, `declined` (the person cleared the check box), `failed`
    /// (starting it was attempted and failed) or `unavailable` (no
    /// non-elevated context existed, so nothing was started).
    pub status: &'static str,
    /// `launch_failed` or `launch_unavailable`, beside those statuses.
    pub code: Option<&'static str>,
    /// The program, its arguments and its working directory, resolved.
    pub program: String,
    pub arguments: Vec<String>,
    pub working_directory: String,
    /// `own_token` or `shell`, for a start that was attempted.
    pub method: Option<&'static str>,
    /// The started process, where it was seen.
    pub pid: Option<u32>,
    /// Whether the program's window was put in the foreground; `false` for a
    /// program that showed no window in time — a tray application.
    pub foreground: Option<bool>,
    pub message: Option<String>,
}

/// Whether an outcome says nothing but how the run ended.
pub open spec fn is_bare(o: Outcome) -> bool {
    &&& o.schema == SCHEMA
    &&& o.installation is None
    &&& o.transaction is None
    &&& o.recovery is None
    &&& o.legacy is None
    &&& o.closed_applications@.len() == 0
    &&& o.dependencies@.len() == 0
    &&& o.actions@.len() == 0
    &&& !o.reboot_required
    &&& o.dependency is None
    &&& o.reason is None
    &&& o.existing_installations@.len() == 0
    &&& o.findings@.len() == 0
    &&& o.log is None
    &&& o.duration_ms == 0
    &&& o.launch is None
}

impl Outcome {
    /// An outcome that says nothing but how the run ended.
    pub fn new(outcome: &'static str, code: &str, exit_code: i32, message: &str) -> (r: Outcome)
        ensures
            r.outcome == outcome,
            r.code@ == code@,
            r.exit_code == exit_code,
            r.message@ == message@,
            is_bare(r),
    {
        Outcome {
            schema: SCHEMA,
            outcome,
            code: text::owned(code),
            exit_code,
            message: text::owned(message),
            installation: None,
            transaction: None,
            recovery: None,
            legacy: None,
            closed_applications: Vec::new(),
            dependencies: Vec::new(),
            actions: Vec::new(),
            reboot_required: false,
            dependency: None,
            reason: None,
            existing_installations: Vec::new(),
            findings: Vec::new(),
            log: None,
            duration_ms: 0,
            launch: None,
        }
    }
}

/// The words of an answer.
pub open spec fn answer_word(answer: Answer) -> Seq<char> {
    match answer {
        Answer::Close => "close"@,
        Answer::Cancel => "cancel"@,
    }
}

/// What the log says of a question and its answer, so that it explains a run
/// that stopped because someone said no.
pub fn answered(question: &Question, answer: Answer) -> (r: Event)
    ensures
        r.code@ == "question_answered"@,
        r.message@ == "close_applications="@ + text::decimal(
            match *question {
                Question::CloseApplications(holders) => holders@.len(),
            },
        ) + " answer="@ + answer_word(answer),
        r.progress is None,
{
    let holders = match question {
        Question::CloseApplications(holders) => holders,
    };
    let count = text::decimal_of(holders.len() as u64);
    let word = match answer {
        Answer::Close => "close",
        Answer::Cancel => "cancel",
    };
    Event {
        code: "question_answered",
        message: text::cat4("close_applications=", count.as_str(), " answer=", word),
        progress: None,
    }
}

/// One line of the log: `<RFC 3339 UTC timestamp> [<code>] <message>`.
pub fn log_line(stamp: &str, code: &str, message: &str) -> (r: String)
    ensures
        r@ == stamp@ + " ["@ + code@ + "] "@ + message@,
{
    text::cat5(stamp, " [", code, "] ", message)
}

/// Where the engine's events go besides its own log: the CLI, a UI, a test.
pub trait EventSink {
    /// Takes in an event.
    fn event(&mut self, event: &Event);

    /// Answers a question the engine cannot decide. The default is the
    /// unattended answer — an installation asked to run without a person
    /// present proceeds — so a client only implements this to put the question
    /// to someone.
    fn question(&mut self, _question: &Question) -> Answer {
        Answer::Close
    }
}

/// A sink that discards events.
#[derive(Debug)]
pub struct NullSink;

impl EventSink for NullSink {
    fn event(&mut self, _event: &Event) {
    }
}

}
