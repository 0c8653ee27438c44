//! What the log says of the dependency phase.

use vstd::prelude::*;

use crate::action::launch;
use crate::dependency::acquire::{Acquired, AcquiredView};
use crate::dependency::detect::{Detection, DetectionView};
use crate::dependency::{
    arguments, asks_reboot, launch_of, program, shown_name, succeeded, Conditions, Failure,
    FailureView,
};
use crate::lists;
use crate::machine::Machine;
use crate::metadata::Dependency;
use crate::report::documents::{Event, Phase, Progress};
use crate::text;

verus! {

/// Whether an event is progress on a dependency: nothing is counted, the
/// dependency is named.
pub open spec fn is_progress(e: Event, d: Dependency) -> bool {
    e.progress matches Some(p) && p.phase == Phase::Dependencies && p.done == 0 && p.total == 0
        && p.target@ == shown_name(d)
}

fn progress(code: &'static str, message: String, d: &Dependency) -> (r: Event)
    ensures
        r.code == code,
        r.message == message,
        is_progress(r, *d),
{
    counting(code, message, d, 0, 0)
}

/// Whether an event counts the bytes of a dependency's installer.
pub open spec fn counts(e: Event, d: Dependency, done: u64, total: u64) -> bool {
    e.progress matches Some(p) && p.phase == Phase::Dependencies && p.done == done && p.total
        == total && p.target@ == shown_name(d)
}

fn counting(
    code: &'static str,
    message: String,
    d: &Dependency,
    done: u64,
    total: u64,
) -> (r: Event)
    ensures
        r.code == code,
        r.message == message,
        counts(r, *d, done, total),
{
    let target = if d.display_name.as_str().is_empty() {
        d.id.clone()
    } else {
        d.display_name.clone()
    };
    Event {
        code,
        message,
        progress: Some(Progress { phase: Phase::Dependencies, done, total, target }),
    }
}

fn name_of(d: &Dependency) -> (r: &str)
    ensures
        r@ == shown_name(*d),
{
    if d.display_name.as_str().is_empty() {
        d.id.as_str()
    } else {
        d.display_name.as_str()
    }
}

/// What the log says of a download that is under way.
pub fn downloading(d: &Dependency, url: &str, done: u64, total: u64) -> (r: Event)
    ensures
        r.code@ == "dependency_downloading"@,
        r.message@ == shown_name(*d) + ": "@ + text::decimal(done as nat) + "/"@ + text::decimal(
            total as nat,
        ) + (" bytes from "@ + url@),
        counts(r, *d, done, total),
{
    let so_far = text::decimal_of(done);
    let whole = text::decimal_of(total);
    let rest = text::cat2(" bytes from ", url);
    let message = text::cat6(name_of(d), ": ", so_far.as_str(), "/", whole.as_str(), rest.as_str());
    counting("dependency_downloading", message, d, done, total)
}

/// What the log says of a download that is complete and verified.
pub fn downloaded(d: &Dependency, path: &str, length: u64, sha256: &str) -> (r: Event)
    ensures
        r.code@ == "dependency_downloaded"@,
        r.message@ == shown_name(*d) + ": "@ + text::decimal(length as nat) + " bytes, sha256 "@
            + sha256@ + (" verified, at "@ + path@),
        counts(r, *d, length, length),
{
    let size = text::decimal_of(length);
    let rest = text::cat2(" verified, at ", path);
    let message = text::cat6(
        name_of(d),
        ": ",
        size.as_str(),
        " bytes, sha256 ",
        sha256,
        rest.as_str(),
    );
    counting("dependency_downloaded", message, d, length, length)
}

/// What the log says of an embedded installer that was extracted and verified.
pub fn extracted(d: &Dependency, path: &str) -> (r: Event)
    ensures
        r.code@ == "dependency_extracted"@,
        r.message@ == shown_name(*d) + ": "@ + text::decimal(d.acquisition.size as nat)
            + " bytes from payload entry "@ + d.acquisition.entry@ + (", sha256 "@
            + d.acquisition.sha256@ + " verified, at "@ + path@),
        counts(r, *d, d.acquisition.size, d.acquisition.size),
{
    let size = text::decimal_of(d.acquisition.size);
    let rest = text::cat4(", sha256 ", d.acquisition.sha256.as_str(), " verified, at ", path);
    let message = text::cat6(
        name_of(d),
        ": ",
        size.as_str(),
        " bytes from payload entry ",
        d.acquisition.entry.as_str(),
        rest.as_str(),
    );
    counting("dependency_extracted", message, d, d.acquisition.size, d.acquisition.size)
}

/// What the first detection came to, in words.
pub open spec fn detected_words(d: Dependency, found: DetectionView) -> (Seq<char>, Seq<char>) {
    match found {
        DetectionView::Present { version } => (
            "dependency_detected"@,
            d.id@ + ": version "@ + version + " satisfies minimum "@ + text::quoted(
                d.minimum_version@,
            ),
        ),
        DetectionView::Absent { found: Some(found) } => (
            "dependency_missing"@,
            d.id@ + ": found "@ + found + ", which does not satisfy minimum "@ + text::quoted(
                d.minimum_version@,
            ),
        ),
        DetectionView::Absent { found: None } => (
            "dependency_missing"@,
            d.id@ + ": not detected"@,
        ),
    }
}

/// What the log says of the first detection.
pub fn detected(d: &Dependency, found: &Detection) -> (r: Event)
    ensures
        (r.code@, r.message@) == detected_words(*d, found@),
        is_progress(r, *d),
{
    let minimum = text::quoted_of(d.minimum_version.as_str());
    match found {
        Detection::Present { version } => {
            let message = text::cat5(
                d.id.as_str(),
                ": version ",
                version.as_str(),
                " satisfies minimum ",
                minimum.as_str(),
            );
            progress("dependency_detected", message, d)
        },
        Detection::Absent { found: Some(found) } => {
            let message = text::cat5(
                d.id.as_str(),
                ": found ",
                found.as_str(),
                ", which does not satisfy minimum ",
                minimum.as_str(),
            );
            progress("dependency_missing", message, d)
        },
        Detection::Absent { found: None } => {
            let message = text::cat2(d.id.as_str(), ": not detected");
            progress("dependency_missing", message, d)
        },
    }
}

/// The launch of an installer, in words.
pub open spec fn installing_words(
    d: Dependency,
    a: AcquiredView,
    c: Conditions,
    machine: Machine,
) -> Seq<char> {
    d.id@ + ": "@ + launch::line(program(a, machine), arguments(a)) + " "@ + (
    if a.elevation_required && !c.elevated {
        "(elevated) "@
    } else {
        ""@
    }) + if a.refreshed {
        "[refreshed]"@
    } else {
        "[hint]"@
    }
}

/// What the log says when an installer is about to be run.
pub fn installing(d: &Dependency, a: &Acquired, c: Conditions, machine: &Machine) -> (r: Event)
    ensures
        r.code@ == "dependency_installing"@,
        r.message@ == installing_words(*d, a@, c, *machine),
        is_progress(r, *d),
{
    let (program, arguments) = launch_of(a, machine);
    let line = launch::command_line(program.as_str(), &arguments);
    let elevated = if a.elevation_required && !c.elevated {
        "(elevated) "
    } else {
        ""
    };
    let from = if a.refreshed {
        "[refreshed]"
    } else {
        "[hint]"
    };
    let message = text::cat6(d.id.as_str(), ": ", line.as_str(), " ", elevated, from);
    progress("dependency_installing", message, d)
}

/// What the log says when an installer has exited.
pub fn exited(d: &Dependency, a: &Acquired, code: i32) -> (r: Event)
    ensures
        r.code@ == if succeeded(a@, code) {
            "dependency_installed"@
        } else {
            "dependency_install_failed"@
        },
        r.message@ == d.id@ + ": installer exit code "@ + text::signed_decimal(code as int)
            + if asks_reboot(a@, code) {
            " (reboot required)"@
        } else {
            ""@
        },
        is_progress(r, *d),
{
    let reboot = lists::has_code(&a.reboot_codes, code);
    let success = code == 0 || lists::has_code(&a.success_codes, code) || reboot;
    let number = text::signed_decimal_of(code as i64);
    let message = text::cat4(
        d.id.as_str(),
        ": installer exit code ",
        number.as_str(),
        if reboot {
            " (reboot required)"
        } else {
            ""
        },
    );
    progress(
        if success {
            "dependency_installed"
        } else {
            "dependency_install_failed"
        },
        message,
        d,
    )
}

/// What the log says of a dependency that is there though its installer said
/// failure.
pub fn present_anyway(d: &Dependency, code: i32) -> (r: Event)
    ensures
        r.code@ == "dependency_installed_despite_exit_code"@,
        r.message@ == d.id@ + ": installer exit code "@ + text::signed_decimal(code as int)
            + ", but it is present"@,
        r.progress is None,
{
    let number = text::signed_decimal_of(code as i64);
    let message = text::cat4(
        d.id.as_str(),
        ": installer exit code ",
        number.as_str(),
        ", but it is present",
    );
    Event { code: "dependency_installed_despite_exit_code", message, progress: None }
}

/// What the log says of a dependency detected after its installer ran.
pub fn verified(d: &Dependency, version: &str) -> (r: Event)
    ensures
        r.code@ == "dependency_verified"@,
        r.message@ == d.id@ + ": version "@ + version@ + " detected after installation"@,
        is_progress(r, *d),
{
    let message = text::cat4(
        d.id.as_str(),
        ": version ",
        version,
        " detected after installation",
    );
    progress("dependency_verified", message, d)
}

/// What the log says of a dependency the options do not require.
pub fn not_required(d: &Dependency) -> (r: Event)
    ensures
        r.code@ == "dependency_not_required"@,
        r.message@ == d.id@ + ": disabled by option "@ + match d.when {
            Some(when) => when.description(),
            None => ""@,
        },
        r.progress is None,
{
    let asked = match &d.when {
        Some(when) => when.describe(),
        None => text::owned(""),
    };
    Event {
        code: "dependency_not_required",
        message: text::cat3(d.id.as_str(), ": disabled by option ", asked.as_str()),
        progress: None,
    }
}

/// A failure, in words.
pub open spec fn failed_words(f: FailureView) -> Seq<char> {
    f.dependency + ": "@ + f.code + (match f.reason {
        Some(reason) => " ("@ + reason + ")"@,
        None => ""@,
    }) + ": "@ + f.message
}

/// What the log says of the dependency that stopped the phase.
pub fn failed(f: &Failure) -> (r: Event)
    ensures
        r.code@ == "dependency_failed"@,
        r.message@ == failed_words(f@),
        r.progress is None,
{
    let reason = match f.reason {
        Some(reason) => text::cat3(" (", reason, ")"),
        None => text::owned(""),
    };
    let message = text::cat6(
        f.dependency.as_str(),
        ": ",
        f.code,
        reason.as_str(),
        ": ",
        f.message.as_str(),
    );
    Event { code: "dependency_failed", message, progress: None }
}

}
