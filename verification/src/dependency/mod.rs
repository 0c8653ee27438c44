//! The dependency phase: for every declared dependency, detect → present →
//! continue; absent → acquire, install unattended, re-detect. It runs before
//! the product transaction and outside it: a failure here leaves no product
//! change, and a dependency installed here is a requirement satisfied, never a
//! resource owned — it stays when the product rolls back or is uninstalled.
//!
//! Detection comes first, so a machine whose dependencies are present never
//! opens a network connection — nor extracts an embedded installer.
//!
//! A dependency may carry a predicate like any other optional resource: one
//! the effective options disable is not a requirement of this run.
//!
//! The phase alternates decisions and outside work. What has come of the
//! outside work so far is a [`World`] per dependency; [`run`] reads the worlds
//! and says what is to be done next, until nothing is.

pub mod acquire;
pub mod acquiring;
pub mod anchors;
pub mod detect;
pub mod outcomes;
pub mod pattern;
pub mod told;

use vstd::prelude::*;

use crate::action::launch;
use crate::action::plan;
use crate::dependency::acquire::{Acquired, AcquiredView, CatalogError, Reason};
use crate::dependency::detect::{Detection, DetectionView};
use crate::engine::package::Package;
use crate::error;
use crate::error::{Error, ErrorView};
use crate::i18n;
use crate::lists;
use crate::machine::Machine;
use crate::metadata::{AcquisitionSource, Dependency, OptionView};
use crate::plan::target;
use crate::report::documents;
use crate::report::documents::{
    DependencyInfo, DependencyStatus, EmbeddedInstallerInfo, Outcome,
};
use crate::report::exit;
use crate::resource::predicate;
use crate::resource::predicate::Options;
use crate::state::dependency::DependencyEvent;
use crate::text;

verus! {

/// Name of the directory under the state directory that holds downloads for
/// the duration of the phase.
pub const DOWNLOAD_DIR: &'static str = "deps";

/// Why the phase stopped.
#[derive(Debug, PartialEq, Eq)]
pub struct Failure {
    /// `dependency_missing`, `dependency_unacquirable`,
    /// `dependency_install_failed`, `dependency_unverified`,
    /// `dependency_requires_elevation` or `dependency_cancelled`.
    pub code: &'static str,
    pub dependency: String,
    pub display_name: String,
    /// The acquisition reason beside `dependency_unacquirable`.
    pub reason: Option<&'static str>,
    pub message: String,
}

/// What a [`Failure`] says.
#[verifier::ext_equal]
pub struct FailureView {
    pub code: Seq<char>,
    pub dependency: Seq<char>,
    pub display_name: Seq<char>,
    pub reason: Option<Seq<char>>,
    pub message: Seq<char>,
}

/// The view of an optional word.
pub open spec fn word_view(w: Option<&'static str>) -> Option<Seq<char>> {
    match w {
        Some(w) => Some(w@),
        None => None,
    }
}

impl View for Failure {
    type V = FailureView;

    open spec fn view(&self) -> FailureView {
        FailureView {
            code: self.code@,
            dependency: self.dependency@,
            display_name: self.display_name@,
            reason: word_view(self.reason),
            message: self.message@,
        }
    }
}

/// What the phase did.
#[derive(Debug)]
pub struct PhaseOutcome {
    pub records: Vec<DependencyInfo>,
    pub events: Vec<DependencyEvent>,
    pub reboot_required: bool,
    pub failure: Option<Failure>,
}

/// What a [`DependencyInfo`] says.
#[verifier::ext_equal]
pub struct RecordView {
    pub id: Seq<char>,
    pub name: Seq<char>,
    pub status: Seq<char>,
    pub action: Seq<char>,
    pub version: Option<Seq<char>>,
    pub url: Option<Seq<char>>,
    pub sha256: Option<Seq<char>>,
    pub exit_code: Option<i32>,
    pub reason: Option<Seq<char>>,
    pub code: Option<Seq<char>>,
}

impl View for DependencyInfo {
    type V = RecordView;

    open spec fn view(&self) -> RecordView {
        RecordView {
            id: self.id@,
            name: self.name@,
            status: self.status@,
            action: self.action@,
            version: text::option_view(self.version),
            url: text::option_view(self.url),
            sha256: text::option_view(self.sha256),
            exit_code: self.exit_code,
            reason: word_view(self.reason),
            code: word_view(self.code),
        }
    }
}

/// What a [`DependencyEvent`] says.
#[verifier::ext_equal]
pub struct EventView {
    pub dependency_id: Seq<char>,
    pub version: Seq<char>,
    pub action: Seq<char>,
    pub url: Option<Seq<char>>,
    pub sha256: Option<Seq<char>>,
    pub recorded_at: Seq<char>,
}

impl View for DependencyEvent {
    type V = EventView;

    open spec fn view(&self) -> EventView {
        EventView {
            dependency_id: self.dependency_id@,
            version: self.version@,
            action: self.action@,
            url: text::option_view(self.url),
            sha256: text::option_view(self.sha256),
            recorded_at: self.recorded_at@,
        }
    }
}

/// The name a dependency is shown by.
pub open spec fn shown_name(d: Dependency) -> Seq<char> {
    if d.display_name@.len() == 0 {
        d.id@
    } else {
        d.display_name@
    }
}

fn display_name_of(d: &Dependency) -> (r: &str)
    ensures
        r@ == shown_name(*d),
{
    if d.display_name.as_str().is_empty() {
        d.id.as_str()
    } else {
        d.display_name.as_str()
    }
}

/// The record of a dependency, with nothing known of an installer.
pub open spec fn bare_record(d: Dependency, status: Seq<char>, action: Seq<char>) -> RecordView {
    RecordView {
        id: d.id@,
        name: shown_name(d),
        status,
        action,
        version: None,
        url: None,
        sha256: None,
        exit_code: None,
        reason: None,
        code: None,
    }
}

fn record(d: &Dependency, status: &'static str, action: &'static str) -> (r: DependencyInfo)
    ensures
        r@ == bare_record(*d, status@, action@),
        r.status == status,
        r.action == action,
{
    DependencyInfo {
        id: d.id.clone(),
        name: text::owned(display_name_of(d)),
        status,
        action,
        version: None,
        url: None,
        sha256: None,
        exit_code: None,
        reason: None,
        code: None,
    }
}

/// An event of a dependency, with nothing known of an installer.
pub open spec fn bare_event(
    d: Dependency,
    action: Seq<char>,
    version: Seq<char>,
    now: Seq<char>,
) -> EventView {
    EventView {
        dependency_id: d.id@,
        version,
        action,
        url: None,
        sha256: None,
        recorded_at: now,
    }
}

fn event(d: &Dependency, action: &str, version: &str, now: &str) -> (r: DependencyEvent)
    ensures
        r@ == bare_event(*d, action@, version@, now@),
{
    DependencyEvent {
        dependency_id: d.id.clone(),
        version: text::owned(version),
        action: text::owned(action),
        url: None,
        sha256: None,
        recorded_at: text::owned(now),
    }
}

/// The stable name of an acquisition source.
pub open spec fn source_word(source: AcquisitionSource) -> Seq<char> {
    match source {
        AcquisitionSource::Winget => "winget"@,
        AcquisitionSource::Url => "url"@,
        AcquisitionSource::Embedded => "embedded"@,
        AcquisitionSource::Unspecified => "none"@,
    }
}

/// The stable name of a dependency's acquisition source.
pub fn source_name(d: &Dependency) -> (r: &'static str)
    ensures
        r@ == source_word(d.acquisition.source),
{
    match d.acquisition.source {
        AcquisitionSource::Winget => "winget",
        AcquisitionSource::Url => "url",
        AcquisitionSource::Embedded => "embedded",
        AcquisitionSource::Unspecified => "none",
    }
}

/// Whether a document is the status of a dependency on a machine.
pub open spec fn is_status(s: DependencyStatus, d: Dependency, found: DetectionView) -> bool {
    &&& s.id@ == d.id@
    &&& s.name@ == shown_name(d)
    &&& s.minimum_version@ == d.minimum_version@
    &&& s.source@ == source_word(d.acquisition.source)
    &&& match found {
        DetectionView::Present { version } => s.status@ == "present"@ && text::option_view(
            s.version,
        ) == Some(version),
        DetectionView::Absent { .. } => s.status@ == "absent"@ && s.version is None,
    }
    &&& match s.embedded {
        Some(e) => d.acquisition.source == AcquisitionSource::Embedded && e.entry@
            == d.acquisition.entry@ && e.sha256@ == d.acquisition.sha256@ && e.size
            == d.acquisition.size,
        None => d.acquisition.source != AcquisitionSource::Embedded,
    }
}

/// What the detector of a dependency says of a machine.
pub open spec fn looks(d: Dependency, machine: Machine) -> Result<DetectionView, ErrorView> {
    detect::detected(d.detect, d.minimum_version@, machine)
}

/// Whether a failure is that of the first dependency that cannot be looked
/// for.
pub open spec fn first_unlookable(ds: Seq<Dependency>, machine: Machine, e: ErrorView) -> bool {
    exists|i: int|
        {
            &&& 0 <= i < ds.len()
            &&& (#[trigger] looks(ds[i], machine)) matches Err(x)
            &&& x == e
            &&& forall|j: int| 0 <= j < i ==> looks(#[trigger] ds[j], machine) is Ok
        }
}

/// The current detection result of every declared dependency, in declaration
/// order, or the first that cannot be looked for. Reads the machine only.
pub fn statuses(package: &Package, machine: &Machine) -> (r: Result<Vec<DependencyStatus>, Error>)
    ensures
        match r {
            Ok(v) => {
                &&& v@.len() == package.metadata.dependencies@.len()
                &&& forall|i: int|
                    0 <= i < v@.len() ==> (looks(
                        package.metadata.dependencies@[i],
                        *machine,
                    ) matches Ok(found) && is_status(
                        #[trigger] v@[i],
                        package.metadata.dependencies@[i],
                        found,
                    ))
            },
            Err(e) => first_unlookable(package.metadata.dependencies@, *machine, e@),
        },
{
    let all = &package.metadata.dependencies;
    let mut out: Vec<DependencyStatus> = Vec::new();
    let mut i: usize = 0;
    while i < all.len()
        invariant
            i <= all@.len(),
            all@ == package.metadata.dependencies@,
            out@.len() == i,
            forall|j: int|
                0 <= j < i ==> (looks(#[trigger] all@[j], *machine) matches Ok(found) && is_status(
                    out@[j],
                    all@[j],
                    found,
                )),
        decreases all@.len() - i,
    {
        let d = &all[i];
        match detect::detect(&d.detect, d.minimum_version.as_str(), machine) {
            Err(e) => {
                assert(looks(package.metadata.dependencies@[i as int], *machine) is Err);
                return Err(e);
            },
            Ok(detection) => {
                let embedded = if d.acquisition.source == AcquisitionSource::Embedded {
                    Some(
                        EmbeddedInstallerInfo {
                            entry: d.acquisition.entry.clone(),
                            sha256: d.acquisition.sha256.clone(),
                            size: d.acquisition.size,
                        },
                    )
                } else {
                    None
                };
                let (status, version) = match detection {
                    Detection::Present { version } => ("present", Some(version)),
                    Detection::Absent { .. } => ("absent", None),
                };
                out.push(
                    DependencyStatus {
                        id: d.id.clone(),
                        name: text::owned(display_name_of(d)),
                        minimum_version: d.minimum_version.clone(),
                        status,
                        version,
                        source: source_name(d),
                        embedded,
                    },
                );
            },
        }
        i = i + 1;
    }
    Ok(out)
}

/// The program an acquired installer is run by.
pub open spec fn program(a: AcquiredView, machine: Machine) -> Seq<char> {
    if acquire::is_msi(a.installer_type) {
        launch::system_file(machine, "msiexec.exe"@)
    } else {
        a.path
    }
}

/// The arguments an acquired installer is run with.
pub open spec fn arguments(a: AcquiredView) -> Seq<Seq<char>> {
    if acquire::is_msi(a.installer_type) {
        seq!["/i"@, a.path, "/qn"@, "/norestart"@] + a.arguments
    } else {
        a.arguments
    }
}

/// The program and arguments that run an acquired installer unattended.
pub fn launch_of(acquired: &Acquired, machine: &Machine) -> (r: (String, Vec<String>))
    ensures
        r.0@ == program(acquired@, *machine),
        text::views(r.1@) == arguments(acquired@),
{
    if acquire::is_msi_type(acquired.installer_type.as_str()) {
        let mut all: Vec<String> = Vec::new();
        all.push(text::owned("/i"));
        all.push(acquired.path.clone());
        all.push(text::owned("/qn"));
        all.push(text::owned("/norestart"));
        let ghost head = all@;
        let mut more = text::copy_list(&acquired.arguments);
        proof {
            assert(text::views(head) =~= seq!["/i"@, acquired.path@, "/qn"@, "/norestart"@]);
            text::lemma_views_concat(head, more@);
        }
        all.append(&mut more);
        (launch::system32(machine, "msiexec.exe"), all)
    } else {
        (acquired.path.clone(), text::copy_list(&acquired.arguments))
    }
}

/// Why an installer could not be run.
#[derive(Debug, PartialEq, Eq)]
pub enum LaunchError {
    /// The elevation prompt was refused.
    Refused,
    Failed(String),
}

/// What has come of the outside work for one dependency so far.
#[derive(Debug)]
pub struct World {
    /// Why the payload an embedded installer is in cannot be opened.
    pub payload_error: Option<String>,
    pub detected: Option<Result<Detection, Error>>,
    /// The download directory is there, or why it is not.
    pub prepared: Option<Result<(), String>>,
    pub acquired: Option<Result<Acquired, CatalogError>>,
    /// The person cancelled by the time the installer was acquired.
    pub cancelled: bool,
    /// The fault a test injects right before the installer runs, in words.
    pub fault_before: Option<String>,
    /// The exit code of the installer.
    pub ran: Option<Result<i32, LaunchError>>,
    /// Whether the dependency is there after an exit code that says failure.
    pub rechecked: Option<bool>,
    /// The fault a test injects right after the installer ran, in words.
    pub fault_after: Option<String>,
    pub verified: Option<Result<Detection, Error>>,
}

impl World {
    /// Nothing has been done yet.
    pub fn new() -> (r: World)
        ensures
            r.payload_error is None,
            r.detected is None,
            r.prepared is None,
            r.acquired is None,
            !r.cancelled,
            r.fault_before is None,
            r.ran is None,
            r.rechecked is None,
            r.fault_after is None,
            r.verified is None,
    {
        World {
            payload_error: None,
            detected: None,
            prepared: None,
            acquired: None,
            cancelled: false,
            fault_before: None,
            ran: None,
            rechecked: None,
            fault_after: None,
            verified: None,
        }
    }
}

/// The conditions a run goes under.
#[derive(Debug, Clone, Copy, PartialEq, Eq, Structural)]
pub struct Conditions {
    /// Acquire and install a missing dependency.
    pub install_dependencies: bool,
    /// Nobody is there to answer a prompt.
    pub quiet: bool,
    pub elevated: bool,
}

/// Why a dependency stops the phase.
#[derive(Debug, Clone, Copy, PartialEq, Eq, Structural)]
pub enum Why {
    PayloadUnreadable,
    Undetectable,
    Disabled,
    NeedsElevation,
    NotPrepared,
    Unacquired,
    AcquisitionCancelled,
    Cancelled,
    FaultBefore,
    PromptRefused,
    NotLaunched,
    ExitCode,
    FaultAfter,
    Unverifiable,
    Unverified,
}

/// Where one dependency stands: what is to be done next, or how it ended.
#[derive(Debug, Clone, Copy, PartialEq, Eq, Structural)]
pub enum Standing {
    /// Its detector is to be run.
    Detect,
    /// The download directory is to be created.
    Prepare,
    /// Its installer is to be acquired.
    Acquire,
    /// Its installer is to be run.
    Install,
    /// Its detector is to be run after an exit code that says failure.
    Recheck,
    /// Its detector is to be run again.
    Verify,
    /// It was there.
    Present,
    /// It is there now.
    Installed,
    Failed(Why),
}

impl Standing {
    /// Whether nothing is left to be done.
    pub open spec fn is_final(self) -> bool {
        self is Present || self is Installed || self is Failed
    }
}

/// Whether an installer that needs elevation cannot get it.
pub open spec fn blocked(needed: bool, c: Conditions) -> bool {
    needed && !c.elevated && c.quiet
}

/// Whether an exit code asks for a restart.
pub open spec fn asks_reboot(a: AcquiredView, code: i32) -> bool {
    a.reboot_codes.contains(code)
}

/// Whether an exit code says success.
pub open spec fn succeeded(a: AcquiredView, code: i32) -> bool {
    code == 0 || a.success_codes.contains(code) || asks_reboot(a, code)
}

/// Where a dependency stands once its installer has run with an exit code.
/// Detection is what says whether the requirement is met: a vendor's installer
/// may report an error and still have done the job, so an exit code that says
/// failure is checked against the machine before it is believed.
pub open spec fn after_install(a: AcquiredView, code: i32, w: World) -> Standing {
    if !succeeded(a, code) && w.rechecked is None {
        Standing::Recheck
    } else if !succeeded(a, code) && w.rechecked == Some(false) {
        Standing::Failed(Why::ExitCode)
    } else if w.fault_after is Some {
        Standing::Failed(Why::FaultAfter)
    } else {
        match w.verified {
            None => Standing::Verify,
            Some(Err(_)) => Standing::Failed(Why::Unverifiable),
            Some(Ok(d)) => if d@ is Present {
                Standing::Installed
            } else {
                Standing::Failed(Why::Unverified)
            },
        }
    }
}

/// Whether the installer of a dependency is in the payload.
pub open spec fn needs_payload(d: Dependency) -> bool {
    d.acquisition.source == AcquisitionSource::Embedded
}

/// Where a dependency stands. The payload is opened only where an embedded
/// installer is needed: one that is present never reads it.
pub open spec fn standing(d: Dependency, c: Conditions, w: World) -> Standing {
    match w.detected {
        None => Standing::Detect,
        Some(Err(_)) => Standing::Failed(Why::Undetectable),
        Some(Ok(found)) => if found@ is Present {
            Standing::Present
        } else if !c.install_dependencies {
            Standing::Failed(Why::Disabled)
        } else if blocked(d.elevation_required, c) {
            Standing::Failed(Why::NeedsElevation)
        } else if needs_payload(d) && w.payload_error is Some {
            Standing::Failed(Why::PayloadUnreadable)
        } else {
            match w.prepared {
                None => Standing::Prepare,
                Some(Err(_)) => Standing::Failed(Why::NotPrepared),
                Some(Ok(_)) => match w.acquired {
                    None => Standing::Acquire,
                    Some(Err(e)) => if e.reason == Reason::Cancelled {
                        Standing::Failed(Why::AcquisitionCancelled)
                    } else {
                        Standing::Failed(Why::Unacquired)
                    },
                    Some(Ok(a)) => if blocked(a.elevation_required, c) {
                        Standing::Failed(Why::NeedsElevation)
                    } else if w.cancelled {
                        Standing::Failed(Why::Cancelled)
                    } else if w.fault_before is Some {
                        Standing::Failed(Why::FaultBefore)
                    } else {
                        match w.ran {
                            None => Standing::Install,
                            Some(Err(LaunchError::Refused)) => Standing::Failed(Why::PromptRefused),
                            Some(Err(LaunchError::Failed(_))) => Standing::Failed(Why::NotLaunched),
                            Some(Ok(code)) => after_install(a@, code, w),
                        }
                    },
                },
            }
        },
    }
}

fn after_install_of(a: &Acquired, code: i32, w: &World) -> (r: Standing)
    ensures
        r == after_install(a@, code, *w),
{
    let success = code == 0 || lists::has_code(&a.success_codes, code) || lists::has_code(
        &a.reboot_codes,
        code,
    );
    if !success {
        match w.rechecked {
            None => {
                return Standing::Recheck;
            },
            Some(there) => {
                if !there {
                    return Standing::Failed(Why::ExitCode);
                }
            },
        }
    }
    if w.fault_after.is_some() {
        return Standing::Failed(Why::FaultAfter);
    }
    match &w.verified {
        None => Standing::Verify,
        Some(Err(_)) => Standing::Failed(Why::Unverifiable),
        Some(Ok(found)) => match found {
            Detection::Present { .. } => Standing::Installed,
            Detection::Absent { .. } => Standing::Failed(Why::Unverified),
        },
    }
}

/// Where a dependency stands: what is to be done next, or how it ended.
pub fn one(d: &Dependency, c: Conditions, w: &World) -> (r: Standing)
    ensures
        r == standing(*d, c, *w),
{
    match &w.detected {
        None => {
            return Standing::Detect;
        },
        Some(Err(_)) => {
            return Standing::Failed(Why::Undetectable);
        },
        Some(Ok(found)) => match found {
            Detection::Present { .. } => {
                return Standing::Present;
            },
            Detection::Absent { .. } => {},
        },
    }
    if !c.install_dependencies {
        return Standing::Failed(Why::Disabled);
    }
    if d.elevation_required && !c.elevated && c.quiet {
        return Standing::Failed(Why::NeedsElevation);
    }
    if matches!(d.acquisition.source, AcquisitionSource::Embedded) && w.payload_error.is_some() {
        return Standing::Failed(Why::PayloadUnreadable);
    }
    match &w.prepared {
        None => {
            return Standing::Prepare;
        },
        Some(Err(_)) => {
            return Standing::Failed(Why::NotPrepared);
        },
        Some(Ok(_)) => {},
    }
    let a = match &w.acquired {
        None => {
            return Standing::Acquire;
        },
        Some(Err(e)) => {
            return if matches!(e.reason, Reason::Cancelled) {
                Standing::Failed(Why::AcquisitionCancelled)
            } else {
                Standing::Failed(Why::Unacquired)
            };
        },
        Some(Ok(a)) => a,
    };
    if a.elevation_required && !c.elevated && c.quiet {
        return Standing::Failed(Why::NeedsElevation);
    }
    if w.cancelled {
        return Standing::Failed(Why::Cancelled);
    }
    if w.fault_before.is_some() {
        return Standing::Failed(Why::FaultBefore);
    }
    match &w.ran {
        None => Standing::Install,
        Some(Err(LaunchError::Refused)) => Standing::Failed(Why::PromptRefused),
        Some(Err(LaunchError::Failed(_))) => Standing::Failed(Why::NotLaunched),
        Some(Ok(code)) => after_install_of(a, *code, w),
    }
}

/// The stable code a dependency stops the phase with.
pub open spec fn failure_code(why: Why) -> Seq<char> {
    match why {
        Why::Disabled => "dependency_missing"@,
        Why::PayloadUnreadable | Why::NotPrepared | Why::Unacquired => "dependency_unacquirable"@,
        Why::FaultBefore | Why::NotLaunched | Why::ExitCode => "dependency_install_failed"@,
        Why::NeedsElevation => "dependency_requires_elevation"@,
        Why::AcquisitionCancelled | Why::Cancelled | Why::PromptRefused => "dependency_cancelled"@,
        Why::Undetectable | Why::FaultAfter | Why::Unverifiable | Why::Unverified => {
            "dependency_unverified"@
        },
    }
}

fn failure_code_of(why: Why) -> (r: &'static str)
    ensures
        r@ == failure_code(why),
{
    match why {
        Why::Disabled => "dependency_missing",
        Why::PayloadUnreadable | Why::NotPrepared | Why::Unacquired => "dependency_unacquirable",
        Why::FaultBefore | Why::NotLaunched | Why::ExitCode => "dependency_install_failed",
        Why::NeedsElevation => "dependency_requires_elevation",
        Why::AcquisitionCancelled | Why::Cancelled | Why::PromptRefused => "dependency_cancelled",
        Why::Undetectable | Why::FaultAfter | Why::Unverifiable | Why::Unverified => {
            "dependency_unverified"
        },
    }
}

/// The status a dependency that stops the phase is recorded with.
pub open spec fn failure_status(why: Why) -> Seq<char> {
    match why {
        Why::Disabled => "missing"@,
        Why::PayloadUnreadable | Why::NotPrepared | Why::Unacquired => "unacquirable"@,
        Why::FaultBefore | Why::NotLaunched | Why::ExitCode => "install_failed"@,
        Why::NeedsElevation => "requires_elevation"@,
        Why::AcquisitionCancelled | Why::Cancelled | Why::PromptRefused => "cancelled"@,
        Why::Undetectable | Why::FaultAfter | Why::Unverifiable | Why::Unverified => "unverified"@,
    }
}

fn failure_status_of(why: Why) -> (r: &'static str)
    ensures
        r@ == failure_status(why),
{
    match why {
        Why::Disabled => "missing",
        Why::PayloadUnreadable | Why::NotPrepared | Why::Unacquired => "unacquirable",
        Why::FaultBefore | Why::NotLaunched | Why::ExitCode => "install_failed",
        Why::NeedsElevation => "requires_elevation",
        Why::AcquisitionCancelled | Why::Cancelled | Why::PromptRefused => "cancelled",
        Why::Undetectable | Why::FaultAfter | Why::Unverifiable | Why::Unverified => "unverified",
    }
}

/// The exit code of an installer that ran.
pub open spec fn exit_of(w: World) -> i32 {
    match w.ran {
        Some(Ok(code)) => code,
        _ => 0,
    }
}

/// The acquired installer.
pub open spec fn acquired_of(w: World) -> AcquiredView {
    w.acquired->Some_0->Ok_0@
}

/// Why a dependency stops the phase, in words.
pub open spec fn failure_words(w: World, why: Why, deps_dir: Seq<char>) -> Seq<char> {
    match why {
        Why::PayloadUnreadable => "this installer's payload cannot be opened: "@
            + w.payload_error->Some_0@,
        Why::Undetectable => w.detected->Some_0->Err_0@.message,
        Why::Disabled => "dependency installation is disabled"@,
        Why::NeedsElevation => "the dependency's installer needs an elevated process"@,
        Why::NotPrepared => "cannot create "@ + deps_dir + ": "@ + w.prepared->Some_0->Err_0@,
        Why::Unacquired | Why::AcquisitionCancelled => w.acquired->Some_0->Err_0.message@,
        Why::Cancelled => "cancelled"@,
        Why::FaultBefore => w.fault_before->Some_0@,
        Why::FaultAfter => w.fault_after->Some_0@,
        Why::PromptRefused => "the elevation prompt was refused"@,
        Why::NotLaunched => w.ran->Some_0->Err_0->Failed_0@,
        Why::ExitCode => "the installer exited with code "@ + text::signed_decimal(
            exit_of(w) as int,
        ) + " (url "@ + acquired_of(w).url + ")"@,
        Why::Unverifiable => w.verified->Some_0->Err_0@.message,
        Why::Unverified => "the installer exited with code "@ + text::signed_decimal(
            exit_of(w) as int,
        ) + match w.verified->Some_0->Ok_0@ {
            DetectionView::Absent { found: Some(found) } => " but only "@ + found
                + " is detected"@,
            _ => " but the dependency is not detected"@,
        },
    }
}

/// The acquisition reason beside `dependency_unacquirable`.
pub open spec fn failure_reason(w: World, why: Why) -> Option<Seq<char>> {
    match why {
        Why::PayloadUnreadable | Why::NotPrepared => Some("download_failed"@),
        Why::Unacquired => Some(w.acquired->Some_0->Err_0.reason.name()),
        _ => None,
    }
}

/// The failure a dependency stops the phase with.
pub open spec fn failure_of(d: Dependency, w: World, why: Why, deps_dir: Seq<char>) -> FailureView {
    FailureView {
        code: failure_code(why),
        dependency: d.id@,
        display_name: shown_name(d),
        reason: failure_reason(w, why),
        message: failure_words(w, why, deps_dir),
    }
}

fn error_message(e: &Error) -> (r: String)
    ensures
        r@ == e@.message,
{
    e.message.clone()
}

fn words_of(d: &Dependency, c: Conditions, w: &World, why: Why, deps_dir: &str) -> (r: String)
    requires
        standing(*d, c, *w) == Standing::Failed(why),
    ensures
        r@ == failure_words(*w, why, deps_dir@),
{
    match why {
        Why::PayloadUnreadable => match &w.payload_error {
            Some(e) => text::cat2("this installer's payload cannot be opened: ", e.as_str()),
            None => String::new(),
        },
        Why::Undetectable => match &w.detected {
            Some(Err(e)) => error_message(e),
            _ => String::new(),
        },
        Why::Disabled => text::owned("dependency installation is disabled"),
        Why::NeedsElevation => text::owned("the dependency's installer needs an elevated process"),
        Why::NotPrepared => match &w.prepared {
            Some(Err(e)) => text::cat4("cannot create ", deps_dir, ": ", e.as_str()),
            _ => String::new(),
        },
        Why::Unacquired | Why::AcquisitionCancelled => match &w.acquired {
            Some(Err(e)) => e.message.clone(),
            _ => String::new(),
        },
        Why::Cancelled => text::owned("cancelled"),
        Why::FaultBefore => match &w.fault_before {
            Some(e) => e.clone(),
            None => String::new(),
        },
        Why::FaultAfter => match &w.fault_after {
            Some(e) => e.clone(),
            None => String::new(),
        },
        Why::PromptRefused => text::owned("the elevation prompt was refused"),
        Why::NotLaunched => match &w.ran {
            Some(Err(LaunchError::Failed(e))) => e.clone(),
            _ => String::new(),
        },
        Why::ExitCode => match (&w.ran, &w.acquired) {
            (Some(Ok(code)), Some(Ok(a))) => {
                let code = text::signed_decimal_of(*code as i64);
                text::cat5(
                    "the installer exited with code ",
                    code.as_str(),
                    " (url ",
                    a.url.as_str(),
                    ")",
                )
            },
            _ => String::new(),
        },
        Why::Unverifiable => match &w.verified {
            Some(Err(e)) => error_message(e),
            _ => String::new(),
        },
        Why::Unverified => match (&w.ran, &w.verified) {
            (Some(Ok(code)), Some(Ok(found))) => {
                let code = text::signed_decimal_of(*code as i64);
                let tail = match found {
                    Detection::Absent { found: Some(found) } => text::cat3(
                        " but only ",
                        found.as_str(),
                        " is detected",
                    ),
                    _ => text::owned(" but the dependency is not detected"),
                };
                text::cat3("the installer exited with code ", code.as_str(), tail.as_str())
            },
            _ => String::new(),
        },
    }
}

fn reason_of(d: &Dependency, c: Conditions, w: &World, why: Why) -> (r: Option<&'static str>)
    requires
        standing(*d, c, *w) == Standing::Failed(why),
    ensures
        word_view(r) == failure_reason(*w, why),
{
    match why {
        Why::PayloadUnreadable | Why::NotPrepared => Some("download_failed"),
        Why::Unacquired => match &w.acquired {
            Some(Err(e)) => Some(e.reason.code()),
            _ => None,
        },
        _ => None,
    }
}

/// The record of an installer that ran.
pub open spec fn ran_record(
    d: Dependency,
    w: World,
    status: Seq<char>,
    action: Seq<char>,
    version: Option<Seq<char>>,
    code: Option<Seq<char>>,
) -> RecordView {
    RecordView {
        version,
        url: Some(acquired_of(w).url),
        sha256: Some(acquired_of(w).sha256),
        exit_code: Some(exit_of(w)),
        code,
        ..bare_record(d, status, action)
    }
}

/// The record a dependency leaves.
pub open spec fn record_of(d: Dependency, w: World, s: Standing) -> RecordView {
    match s {
        Standing::Present => RecordView {
            version: Some(w.detected->Some_0->Ok_0@->Present_version),
            ..bare_record(d, "present"@, "detected"@)
        },
        Standing::Installed => ran_record(
            d,
            w,
            "installed"@,
            if asks_reboot(acquired_of(w), exit_of(w)) {
                "reboot_required"@
            } else {
                "installed"@
            },
            Some(w.verified->Some_0->Ok_0@->Present_version),
            None,
        ),
        Standing::Failed(why) => if why == Why::ExitCode || why == Why::Unverified {
            ran_record(d, w, failure_status(why), "none"@, None, Some(failure_code(why)))
        } else {
            RecordView {
                reason: failure_reason(w, why),
                code: Some(failure_code(why)),
                ..bare_record(d, failure_status(why), "none"@)
            }
        },
        _ => bare_record(d, "none"@, "none"@),
    }
}

/// Whether a dependency that ends like this leaves a record whatever is
/// recorded already; the others leave one only where none of the same id is.
pub open spec fn always_records(s: Standing) -> bool {
    match s {
        Standing::Failed(why) => why == Why::ExitCode || why == Why::Unverified || why
            == Why::PayloadUnreadable,
        _ => true,
    }
}

/// The events a dependency leaves.
pub open spec fn events_of(d: Dependency, w: World, s: Standing, now: Seq<char>) -> Seq<EventView> {
    match s {
        Standing::Present => seq![
            bare_event(d, "detected"@, w.detected->Some_0->Ok_0@->Present_version, now),
        ],
        Standing::Installed => {
            let version = w.verified->Some_0->Ok_0@->Present_version;
            let acquired = EventView {
                url: Some(acquired_of(w).url),
                sha256: Some(acquired_of(w).sha256),
                ..bare_event(d, "acquired"@, acquired_of(w).version, now)
            };
            seq![acquired, bare_event(d, "installed"@, version, now)] + if asks_reboot(
                acquired_of(w),
                exit_of(w),
            ) {
                seq![bare_event(d, "reboot_required"@, version, now)]
            } else {
                Seq::empty()
            }
        },
        _ => Seq::empty(),
    }
}

/// What the phase has come to.
#[verifier::ext_equal]
pub struct PhaseView {
    pub records: Seq<RecordView>,
    pub events: Seq<EventView>,
    pub reboot_required: bool,
    pub failure: Option<FailureView>,
}

impl View for PhaseOutcome {
    type V = PhaseView;

    open spec fn view(&self) -> PhaseView {
        PhaseView {
            records: text::views(self.records@),
            events: text::views(self.events@),
            reboot_required: self.reboot_required,
            failure: text::option_view(self.failure),
        }
    }
}

impl Default for PhaseOutcome {
    /// Nothing has been done.
    fn default() -> (r: PhaseOutcome)
        ensures
            r@ == nothing_done(),
    {
        let r = PhaseOutcome {
            records: Vec::new(),
            events: Vec::new(),
            reboot_required: false,
            failure: None,
        };
        assert(r@ =~= nothing_done());
        r
    }
}

/// A phase that has done nothing.
pub open spec fn nothing_done() -> PhaseView {
    PhaseView {
        records: Seq::empty(),
        events: Seq::empty(),
        reboot_required: false,
        failure: None,
    }
}

/// Whether a record of an id is there.
pub open spec fn is_recorded(records: Seq<RecordView>, id: Seq<char>) -> bool {
    exists|i: int| 0 <= i < records.len() && (#[trigger] records[i]).id == id
}

/// The phase after a dependency has ended.
pub open spec fn ended(
    p: PhaseView,
    d: Dependency,
    w: World,
    s: Standing,
    deps_dir: Seq<char>,
    now: Seq<char>,
) -> PhaseView {
    PhaseView {
        records: if always_records(s) || !is_recorded(p.records, d.id@) {
            p.records.push(record_of(d, w, s))
        } else {
            p.records
        },
        events: p.events + events_of(d, w, s, now),
        reboot_required: p.reboot_required || (s == Standing::Installed && asks_reboot(
            acquired_of(w),
            exit_of(w),
        )),
        failure: match s {
            Standing::Failed(why) => Some(failure_of(d, w, why, deps_dir)),
            _ => p.failure,
        },
    }
}

fn recorded(records: &Vec<DependencyInfo>, id: &str) -> (r: bool)
    ensures
        r == is_recorded(text::views(records@), id@),
{
    let ghost all = text::views(records@);
    let mut i: usize = 0;
    while i < records.len()
        invariant
            i <= records@.len(),
            all == text::views(records@),
            forall|j: int| 0 <= j < i ==> (#[trigger] all[j]).id != id@,
        decreases records@.len() - i,
    {
        assert(all[i as int] == records@[i as int]@);
        if text::same(records[i].id.as_str(), id) {
            return true;
        }
        i = i + 1;
    }
    false
}

impl PhaseOutcome {
    fn put(&mut self, info: DependencyInfo)
        ensures
            final(self)@ == (PhaseView { records: old(self)@.records.push(info@), ..old(self)@ }),
    {
        proof {
            text::lemma_views_push(self.records@, info);
        }
        self.records.push(info);
    }

    fn note(&mut self, e: DependencyEvent)
        ensures
            final(self)@ == (PhaseView { events: old(self)@.events.push(e@), ..old(self)@ }),
    {
        proof {
            text::lemma_views_push(self.events@, e);
        }
        self.events.push(e);
    }

    /// Takes in how a dependency ended.
    fn end(&mut self, d: &Dependency, c: Conditions, w: &World, deps_dir: &str, now: &str)
        requires
            standing(*d, c, *w).is_final(),
        ensures
            final(self)@ == ended(old(self)@, *d, *w, standing(*d, c, *w), deps_dir@, now@),
    {
        let s = one(d, c, w);
        match s {
            Standing::Present => {
                let version = match &w.detected {
                    Some(Ok(Detection::Present { version })) => version.clone(),
                    _ => String::new(),
                };
                let e = event(d, "detected", version.as_str(), now);
                let mut info = record(d, "present", "detected");
                info.version = Some(version);
                assert(info@ =~= record_of(*d, *w, s));
                self.put(info);
                self.note(e);
                assert(self@ =~= ended(old(self)@, *d, *w, s, deps_dir@, now@));
            },
            Standing::Installed => {
                match (&w.acquired, &w.ran, &w.verified) {
                    (
                        Some(Ok(a)),
                        Some(Ok(code)),
                        Some(Ok(Detection::Present { version })),
                    ) => {
                        let reboot = lists::has_code(&a.reboot_codes, *code);
                        let mut info = record(
                            d,
                            "installed",
                            if reboot {
                                "reboot_required"
                            } else {
                                "installed"
                            },
                        );
                        info.version = Some(version.clone());
                        info.url = Some(a.url.clone());
                        info.sha256 = Some(a.sha256.clone());
                        info.exit_code = Some(*code);
                        assert(info@ =~= record_of(*d, *w, s));
                        self.put(info);
                        let mut e = event(d, "acquired", a.version.as_str(), now);
                        e.url = Some(a.url.clone());
                        e.sha256 = Some(a.sha256.clone());
                        self.note(e);
                        self.note(event(d, "installed", version.as_str(), now));
                        if reboot {
                            self.reboot_required = true;
                            self.note(event(d, "reboot_required", version.as_str(), now));
                        }
                        assert(self@ =~= ended(old(self)@, *d, *w, s, deps_dir@, now@));
                    },
                    _ => {},
                }
            },
            Standing::Failed(why) => {
                let reason = reason_of(d, c, w, why);
                let failure = Failure {
                    code: failure_code_of(why),
                    dependency: d.id.clone(),
                    display_name: text::owned(display_name_of(d)),
                    reason,
                    message: words_of(d, c, w, why, deps_dir),
                };
                let mut info = record(d, failure_status_of(why), "none");
                info.code = Some(failure_code_of(why));
                let ran = matches!(why, Why::ExitCode | Why::Unverified);
                if ran {
                    match (&w.acquired, &w.ran) {
                        (Some(Ok(a)), Some(Ok(code))) => {
                            info.url = Some(a.url.clone());
                            info.sha256 = Some(a.sha256.clone());
                            info.exit_code = Some(*code);
                        },
                        _ => {},
                    }
                } else {
                    info.reason = reason;
                }
                assert(info@ =~= record_of(*d, *w, s));
                if ran || matches!(why, Why::PayloadUnreadable) || !recorded(
                    &self.records,
                    d.id.as_str(),
                ) {
                    self.put(info);
                }
                self.failure = Some(failure);
                assert(self@.failure =~= Some(failure_of(*d, *w, why, deps_dir@)));
                assert(self@ =~= ended(old(self)@, *d, *w, s, deps_dir@, now@));
            },
            _ => {},
        }
    }
}

/// Whether the effective options require a dependency.
pub open spec fn is_required(d: Dependency, options: Map<Seq<char>, OptionView>) -> bool {
    plan::allowed(crate::action::definition::condition(d.when), options)
}

/// What the phase has come to after some dependencies, and what is to be done
/// for the one it waits for.
#[verifier::ext_equal]
pub struct RunView {
    pub phase: PhaseView,
    pub next: Option<(int, Standing)>,
    pub reached: int,
}

/// The phase over the worlds of the dependencies, in declaration order: one
/// that is not required is recorded so, one that ended is taken in, and the
/// first that failed, or that something is still to be done for, stops it.
pub open spec fn phase(
    ds: Seq<Dependency>,
    ws: Seq<World>,
    options: Map<Seq<char>, OptionView>,
    c: Conditions,
    deps_dir: Seq<char>,
    now: Seq<char>,
) -> RunView
    decreases ds.len(),
{
    if ds.len() == 0 {
        RunView { phase: nothing_done(), next: None, reached: 0 }
    } else {
        let before = phase(ds.drop_last(), ws, options, c, deps_dir, now);
        let i = ds.len() - 1;
        let d = ds.last();
        let s = standing(d, c, ws[i]);
        if before.next is Some || before.phase.failure is Some {
            before
        } else if !is_required(d, options) {
            RunView {
                phase: PhaseView {
                    records: before.phase.records.push(bare_record(d, "not_required"@, "none"@)),
                    ..before.phase
                },
                next: None,
                reached: i + 1,
            }
        } else if !s.is_final() {
            RunView { next: Some((i, s)), reached: i + 1, ..before }
        } else {
            RunView {
                phase: ended(before.phase, d, ws[i], s, deps_dir, now),
                next: None,
                reached: i + 1,
            }
        }
    }
}

proof fn lemma_phase_stays(
    ds: Seq<Dependency>,
    ws: Seq<World>,
    options: Map<Seq<char>, OptionView>,
    c: Conditions,
    deps_dir: Seq<char>,
    now: Seq<char>,
    i: int,
)
    requires
        0 <= i <= ds.len(),
        ({
            let r = phase(ds.take(i), ws, options, c, deps_dir, now);
            r.next is Some || r.phase.failure is Some
        }),
    ensures
        phase(ds, ws, options, c, deps_dir, now) == phase(
            ds.take(i),
            ws,
            options,
            c,
            deps_dir,
            now,
        ),
    decreases ds.len() - i,
{
    if i < ds.len() {
        assert(ds.take(i + 1).drop_last() =~= ds.take(i));
        lemma_phase_stays(ds, ws, options, c, deps_dir, now, i + 1);
    } else {
        assert(ds.take(i) =~= ds);
    }
}

/// What the phase has come to, and what is to be done next.
#[derive(Debug)]
pub struct Run {
    pub outcome: PhaseOutcome,
    /// The dependency something is to be done for, and what.
    pub next: Option<(usize, Standing)>,
    /// How many dependencies were looked at, the last one included.
    pub reached: usize,
}

impl View for Run {
    type V = RunView;

    open spec fn view(&self) -> RunView {
        RunView {
            phase: self.outcome@,
            next: match self.next {
                Some((i, s)) => Some((i as int, s)),
                None => None,
            },
            reached: self.reached as int,
        }
    }
}

/// Runs the phase for every declared dependency the effective options require,
/// in declaration order, stopping at the first failure, as far as the worlds
/// go. Downloads and extracted installers live under `deps_dir`.
pub fn run(
    dependencies: &Vec<Dependency>,
    worlds: &Vec<World>,
    effective: &Options,
    c: Conditions,
    deps_dir: &str,
    now: &str,
) -> (r: Run)
    requires
        worlds@.len() == dependencies@.len(),
    ensures
        r@ == phase(dependencies@, worlds@, effective@, c, deps_dir@, now@),
{
    let ghost ds = dependencies@;
    let ghost ws = worlds@;
    let ghost o = effective@;
    let mut outcome: PhaseOutcome = Default::default();
    let mut i: usize = 0;
    assert(ds.take(0) =~= Seq::<Dependency>::empty());
    while i < dependencies.len()
        invariant
            i <= ds.len(),
            ds == dependencies@,
            ws == worlds@,
            o == effective@,
            ws.len() == ds.len(),
            outcome@.failure is None,
            phase(ds.take(i as int), ws, o, c, deps_dir@, now@) == (RunView {
                phase: outcome@,
                next: None,
                reached: i as int,
            }),
        decreases ds.len() - i,
    {
        let d = &dependencies[i];
        proof {
            reveal_strlit("");
            assert(ds.take(i + 1).drop_last() =~= ds.take(i as int));
            assert(ds.take(i + 1).last() == *d);
        }
        if !predicate::enabled(d.when.as_ref(), "", effective) {
            outcome.put(record(d, "not_required", "none"));
            i = i + 1;
            continue;
        }
        let s = one(d, c, &worlds[i]);
        match s {
            Standing::Present | Standing::Installed | Standing::Failed(_) => {},
            _ => {
                let r = Run { outcome, next: Some((i, s)), reached: i + 1 };
                proof {
                    lemma_phase_stays(ds, ws, o, c, deps_dir@, now@, i + 1);
                }
                return r;
            },
        }
        outcome.end(d, c, &worlds[i], deps_dir, now);
        if outcome.failure.is_some() {
            let r = Run { outcome, next: None, reached: i + 1 };
            proof {
                lemma_phase_stays(ds, ws, o, c, deps_dir@, now@, i + 1);
            }
            return r;
        }
        i = i + 1;
    }
    assert(ds.take(i as int) =~= ds);
    Run { outcome, next: None, reached: i }
}

/// A copy of a recorded event.
fn copy_event(e: &DependencyEvent) -> (r: DependencyEvent)
    ensures
        r@ == e@,
{
    DependencyEvent {
        dependency_id: e.dependency_id.clone(),
        version: e.version.clone(),
        action: e.action.clone(),
        url: e.url.clone(),
        sha256: e.sha256.clone(),
        recorded_at: e.recorded_at.clone(),
    }
}

/// Records what the phase observed behind what is recorded already, once there
/// is a state database to record it in. The records are history of a
/// requirement being satisfied; nothing plans from them.
pub fn record_events(rows: &mut Vec<DependencyEvent>, phase: &PhaseOutcome)
    ensures
        text::views(final(rows)@) == text::views(old(rows)@) + phase@.events,
{
    let ghost all = phase@.events;
    let ghost had = text::views(rows@);
    let mut i: usize = 0;
    assert(had + all.take(0) =~= had);
    while i < phase.events.len()
        invariant
            i <= phase.events@.len(),
            all == text::views(phase.events@),
            text::views(rows@) == had + all.take(i as int),
        decreases phase.events@.len() - i,
    {
        let e = copy_event(&phase.events[i]);
        proof {
            text::lemma_views_push(rows@, e);
            assert(all[i as int] == e@);
            assert(had + all.take(i + 1) =~= (had + all.take(i as int)).push(e@));
        }
        rows.push(e);
        i = i + 1;
    }
    assert(all.take(i as int) =~= all);
}

fn copy_record(i: &DependencyInfo) -> (r: DependencyInfo)
    ensures
        r@ == i@,
{
    DependencyInfo {
        id: i.id.clone(),
        name: i.name.clone(),
        status: i.status,
        action: i.action,
        version: i.version.clone(),
        url: i.url.clone(),
        sha256: i.sha256.clone(),
        exit_code: i.exit_code,
        reason: i.reason,
        code: i.code,
    }
}

fn copy_records(v: &Vec<DependencyInfo>) -> (r: Vec<DependencyInfo>)
    ensures
        text::views(r@) == text::views(v@),
{
    let ghost all = text::views(v@);
    let mut out: Vec<DependencyInfo> = Vec::new();
    let mut i: usize = 0;
    assert(text::views(out@) =~= all.take(0));
    while i < v.len()
        invariant
            i <= v@.len(),
            all == text::views(v@),
            text::views(out@) == all.take(i as int),
        decreases v@.len() - i,
    {
        let info = copy_record(&v[i]);
        proof {
            text::lemma_views_push(out@, info);
            assert(all[i as int] == info@);
            assert(all.take(i + 1) =~= all.take(i as int).push(info@));
        }
        out.push(info);
        i = i + 1;
    }
    assert(all.take(i as int) =~= all);
    out
}

/// The catalogue entry a failure is told with.
pub open spec fn phrase_key(code: Seq<char>) -> Seq<char> {
    if code == "dependency_missing"@ {
        "outcome.dependency_missing"@
    } else if code == "dependency_unacquirable"@ {
        "outcome.dependency_unacquirable"@
    } else if code == "dependency_install_failed"@ {
        "outcome.dependency_install_failed"@
    } else if code == "dependency_unverified"@ {
        "outcome.dependency_unverified"@
    } else if code == "dependency_requires_elevation"@ {
        "outcome.dependency_requires_elevation"@
    } else {
        "outcome.dependency_cancelled"@
    }
}

/// What a person is told of a failure.
pub open spec fn failure_text(package: Package, lang: Seq<char>, f: FailureView) -> Seq<char> {
    i18n::filled(i18n::phrase(lang, phrase_key(f.code)), failure_values(package, f))
}

/// What the text of a failure is filled with.
pub open spec fn failure_values(package: Package, f: FailureView) -> Seq<(Seq<char>, Seq<char>)> {
    let reason = match f.reason {
        Some(reason) => reason + ": "@ + f.message,
        None => f.message,
    };
    seq![
        ("name"@, package.metadata.package.name@),
        ("version"@, package.metadata.package.version@),
        ("dependency"@, f.display_name),
        ("reason"@, reason),
    ]
}

/// The outcome document of a run the phase stopped.
pub fn failure_outcome(
    package: &Package,
    lang: &str,
    phase: &PhaseOutcome,
    failure: &Failure,
) -> (r: Outcome)
    ensures
        r.outcome@ == "failed"@,
        r.code@ == failure.code@,
        r.exit_code == error::exit_code_for(failure.code@),
        r.message@ == failure_text(*package, lang@, failure@),
        text::option_view(r.dependency) == Some(failure.dependency@),
        r.reason == failure.reason,
        text::views(r.dependencies@) == phase@.records,
        exists|bare: Outcome| #[trigger]
            documents::is_bare(bare) && r == (Outcome {
                dependency: r.dependency,
                reason: r.reason,
                dependencies: r.dependencies,
                ..bare
            }),
{
    let code = failure.code;
    let key = if text::same(code, "dependency_missing") {
        "outcome.dependency_missing"
    } else if text::same(code, "dependency_unacquirable") {
        "outcome.dependency_unacquirable"
    } else if text::same(code, "dependency_install_failed") {
        "outcome.dependency_install_failed"
    } else if text::same(code, "dependency_unverified") {
        "outcome.dependency_unverified"
    } else if text::same(code, "dependency_requires_elevation") {
        "outcome.dependency_requires_elevation"
    } else {
        "outcome.dependency_cancelled"
    };
    let reason = match failure.reason {
        Some(reason) => text::cat3(reason, ": ", failure.message.as_str()),
        None => failure.message.clone(),
    };
    let template = i18n::text(lang, key);
    let values: [(&str, &str); 4] = [
        ("name", package.name()),
        ("version", package.version()),
        ("dependency", failure.display_name.as_str()),
        ("reason", reason.as_str()),
    ];
    let message = i18n::fill(template.as_str(), &values);
    assert(i18n::pairs(values@) =~= failure_values(*package, failure@));
    let exit_code = Error::new(failure.code, "").exit_code();
    let mut outcome = Outcome::new("failed", failure.code, exit_code, message.as_str());
    let ghost bare = outcome;
    assert(documents::is_bare(bare));
    outcome.dependency = Some(failure.dependency.clone());
    outcome.reason = failure.reason;
    outcome.dependencies = copy_records(&phase.records);
    outcome
}

/// Attaches the phase's records to a completed run's outcome; a successful run
/// whose dependency — or custom action — asked for a restart exits with 3010.
pub fn attach(outcome: &mut Outcome, phase: &PhaseOutcome)
    ensures
        text::views(final(outcome).dependencies@) == phase@.records,
        final(outcome).reboot_required == (old(outcome).reboot_required || phase.reboot_required),
        final(outcome).exit_code == if final(outcome).reboot_required && old(outcome).exit_code
            == exit::OK {
            exit::REBOOT_REQUIRED
        } else {
            old(outcome).exit_code
        },
        *final(outcome) == (Outcome {
            dependencies: final(outcome).dependencies,
            reboot_required: final(outcome).reboot_required,
            exit_code: final(outcome).exit_code,
            ..*old(outcome)
        }),
{
    outcome.dependencies = copy_records(&phase.records);
    outcome.reboot_required = outcome.reboot_required || phase.reboot_required;
    if outcome.reboot_required && outcome.exit_code == exit::OK {
        outcome.exit_code = exit::REBOOT_REQUIRED;
    }
}

/// A dependency that is there is left alone: nothing is prepared, acquired or
/// run for it, whatever else holds.
pub proof fn lemma_a_present_dependency_is_left_alone(d: Dependency, c: Conditions, w: World)
    requires
        w.detected matches Some(Ok(found)) && found@ is Present,
    ensures
        standing(d, c, w) == Standing::Present,
{
}

/// A payload that cannot be opened fails a dependency only where it is absent,
/// is to be installed and its installer is in the payload.
pub proof fn lemma_the_payload_matters_to_embedded_installers_alone(
    d: Dependency,
    c: Conditions,
    w: World,
)
    ensures
        standing(d, c, w) == Standing::Failed(Why::PayloadUnreadable) ==> needs_payload(d)
            && c.install_dependencies && (w.detected matches Some(Ok(found)) && !(found@
            is Present)),
        !needs_payload(d) ==> standing(d, c, w) == standing(
            d,
            c,
            World { payload_error: None, ..w },
        ),
{
}

/// Nothing is acquired while dependency installation is disabled, and nothing
/// that needs elevation is run quietly without it.
pub proof fn lemma_nothing_is_run_against_the_conditions(d: Dependency, c: Conditions, w: World)
    ensures
        !c.install_dependencies ==> !(standing(d, c, w) is Prepare) && !(standing(d, c, w)
            is Acquire) && !(standing(d, c, w) is Install),
        standing(d, c, w) is Install && c.quiet && !c.elevated ==> !d.elevation_required
            && !acquired_of(w).elevation_required,
{
}

/// A dependency counts as installed only where it was detected after its
/// installer ran; an exit code alone never says so.
pub proof fn lemma_only_detection_says_installed(d: Dependency, c: Conditions, w: World)
    ensures
        standing(d, c, w) == Standing::Installed ==> (w.verified matches Some(Ok(found)) && found@
            is Present),
{
}

/// A phase that failed names a declared dependency that the options require,
/// and none behind it was looked at.
pub proof fn lemma_the_phase_stops_at_the_first_failure(
    ds: Seq<Dependency>,
    ws: Seq<World>,
    options: Map<Seq<char>, OptionView>,
    c: Conditions,
    deps_dir: Seq<char>,
    now: Seq<char>,
)
    ensures
        phase(ds, ws, options, c, deps_dir, now).phase.failure is Some ==> exists|i: int|
            0 <= i < ds.len() && is_required(#[trigger] ds[i], options) && (standing(ds[i], c, ws[i])
                is Failed) && phase(ds, ws, options, c, deps_dir, now) == phase(
                ds.take(i + 1),
                ws,
                options,
                c,
                deps_dir,
                now,
            ) && phase(ds.take(i), ws, options, c, deps_dir, now).phase.failure is None,
    decreases ds.len(),
{
    if ds.len() > 0 {
        let init = ds.drop_last();
        lemma_the_phase_stops_at_the_first_failure(init, ws, options, c, deps_dir, now);
        let before = phase(init, ws, options, c, deps_dir, now);
        if phase(ds, ws, options, c, deps_dir, now).phase.failure is Some {
            if before.phase.failure is Some {
                let i = choose|i: int|
                    0 <= i < init.len() && is_required(#[trigger] init[i], options) && (standing(
                        init[i],
                        c,
                        ws[i],
                    ) is Failed) && before == phase(
                        init.take(i + 1),
                        ws,
                        options,
                        c,
                        deps_dir,
                        now,
                    ) && phase(init.take(i), ws, options, c, deps_dir, now).phase.failure is None;
                assert(ds[i] == init[i]);
                assert(ds.take(i + 1) =~= init.take(i + 1));
                assert(ds.take(i) =~= init.take(i));
            } else {
                let i = ds.len() - 1;
                assert(ds.take(i + 1) =~= ds);
                assert(ds.take(i) =~= init);
                assert(is_required(ds[i], options));
            }
        }
    }
}

}
