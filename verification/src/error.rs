//! The one failure type of the engine: a stable code that decides the exit
//! code, and a message for people.

use vstd::prelude::*;

use crate::report::exit;
use crate::text;

verus! {

/// Every failure the engine reports: a stable code and a human message.
#[derive(Debug, Clone, PartialEq, Eq)]
pub struct Error {
    pub code: &'static str,
    pub message: String,
}

/// What an [`Error`] says.
#[verifier::ext_equal]
pub struct ErrorView {
    pub code: Seq<char>,
    pub message: Seq<char>,
}

impl View for Error {
    type V = ErrorView;

    open spec fn view(&self) -> ErrorView {
        ErrorView { code: self.code@, message: self.message@ }
    }
}

/// The codes of a run that could not be brought back to a settled state.
pub open spec fn is_unsettled(code: Seq<char>) -> bool {
    code == "recovery_incomplete"@ || code == "rollback_failed"@
}

/// The codes of a run that a dependency stopped.
pub open spec fn is_dependency(code: Seq<char>) -> bool {
    ||| code == "dependency_missing"@
    ||| code == "dependency_unacquirable"@
    ||| code == "dependency_install_failed"@
    ||| code == "dependency_unverified"@
}

/// The codes of a run that needs an administrator.
pub open spec fn is_elevation(code: Seq<char>) -> bool {
    ||| code == "dependency_requires_elevation"@
    ||| code == "elevation_required"@
    ||| code == "elevation_refused"@
    ||| code == "elevation_unavailable"@
    ||| code == "firewall_requires_elevation"@
}

/// The codes of a run that a person cancelled.
pub open spec fn is_cancelled(code: Seq<char>) -> bool {
    code == "dependency_cancelled"@ || code == "cancelled"@
}

/// The codes of a run that was asked for something it cannot do.
pub open spec fn is_invalid(code: Seq<char>) -> bool {
    ||| code == "scope_unsupported"@
    ||| code == "scope_conflict"@
    ||| code == "scope_ambiguous"@
    ||| code == "install_root_conflict"@
    ||| code == "install_root_invalid"@
    ||| code == "log_unwritable"@
    ||| code == "fault_invalid"@
    ||| code == "package_unreadable"@
    ||| code == "footer_missing"@
    ||| code == "footer_invalid"@
    ||| code == "footer_crc_mismatch"@
    ||| code == "format_unsupported"@
    ||| code == "metadata_invalid"@
    ||| code == "metadata_unsupported"@
    ||| code == "metadata_hash_mismatch"@
    ||| code == "payload_invalid"@
    ||| code == "payload_unavailable"@
    ||| code == "not_implemented"@
    ||| code == "option_unknown"@
    ||| code == "option_value_invalid"@
    ||| code == "known_folder_unavailable"@
}

/// The exit code of a run that ends with an error of this code.
pub open spec fn exit_code_for(code: Seq<char>) -> i32 {
    if is_unsettled(code) {
        exit::RECOVERY_INCOMPLETE
    } else if is_dependency(code) {
        exit::DEPENDENCY_MISSING
    } else if is_elevation(code) {
        exit::ELEVATION
    } else if is_cancelled(code) {
        exit::CANCELLED
    } else if is_invalid(code) {
        exit::INVALID
    } else if code == "package_in_use"@ {
        exit::IN_USE
    } else if code == "platform_unsupported"@ {
        exit::UNSUPPORTED_PLATFORM
    } else {
        exit::ROLLED_BACK
    }
}

impl Error {
    /// A copy of the failure.
    pub fn copy(&self) -> (r: Error)
        ensures
            r == *self,
    {
        Error { code: self.code, message: self.message.clone() }
    }

    /// An error of a code, with its message.
    pub fn new(code: &'static str, message: &str) -> (r: Error)
        ensures
            r.code == code,
            r@ == (ErrorView { code: code@, message: message@ }),
    {
        Error { code, message: text::owned(message) }
    }

    /// The exit code a run ending with this error reports.
    pub fn exit_code(&self) -> (r: i32)
        ensures
            r == exit_code_for(self.code@),
    {
        let code = self.code;
        if text::same(code, "recovery_incomplete") || text::same(code, "rollback_failed") {
            exit::RECOVERY_INCOMPLETE
        } else if text::same(code, "dependency_missing") || text::same(
            code,
            "dependency_unacquirable",
        ) || text::same(code, "dependency_install_failed") || text::same(
            code,
            "dependency_unverified",
        ) {
            exit::DEPENDENCY_MISSING
        } else if text::same(code, "dependency_requires_elevation") || text::same(
            code,
            "elevation_required",
        ) || text::same(code, "elevation_refused") || text::same(code, "elevation_unavailable")
            || text::same(code, "firewall_requires_elevation") {
            exit::ELEVATION
        } else if text::same(code, "dependency_cancelled") || text::same(code, "cancelled") {
            exit::CANCELLED
        } else if asks_the_impossible(code) {
            exit::INVALID
        } else if text::same(code, "package_in_use") {
            exit::IN_USE
        } else if text::same(code, "platform_unsupported") {
            exit::UNSUPPORTED_PLATFORM
        } else {
            exit::ROLLED_BACK
        }
    }

    /// `<code>: <message>`, as a log line or a console shows it.
    pub fn to_string(&self) -> (r: String)
        ensures
            r@ == self.code@ + ": "@ + self.message@,
    {
        text::cat3(self.code, ": ", self.message.as_str())
    }
}

fn asks_the_impossible(code: &str) -> (r: bool)
    ensures
        r == is_invalid(code@),
{
    text::same(code, "scope_unsupported") || text::same(code, "scope_conflict") || text::same(
        code,
        "scope_ambiguous",
    ) || text::same(code, "install_root_conflict") || text::same(code, "install_root_invalid")
        || text::same(code, "log_unwritable") || text::same(code, "fault_invalid") || text::same(
        code,
        "package_unreadable",
    ) || text::same(code, "footer_missing") || text::same(code, "footer_invalid") || text::same(
        code,
        "footer_crc_mismatch",
    ) || text::same(code, "format_unsupported") || text::same(code, "metadata_invalid")
        || text::same(code, "metadata_unsupported") || text::same(code, "metadata_hash_mismatch")
        || text::same(code, "payload_invalid") || text::same(code, "payload_unavailable")
        || text::same(code, "not_implemented") || text::same(code, "option_unknown") || text::same(
        code,
        "option_value_invalid",
    ) || text::same(code, "known_folder_unavailable")
}

/// No error ends with a code that says success, and what is not settled, a
/// dependency, want of rights and a cancelled run are told apart.
pub proof fn lemma_an_error_is_never_a_success(code: Seq<char>)
    ensures
        exit_code_for(code) != 0,
        exit_code_for(code) != 3010,
        1 <= exit_code_for(code) <= 8,
        code == "recovery_incomplete"@ || code == "rollback_failed"@ ==> exit_code_for(code) == 7,
        exit_code_for(code) == 7 ==> code == "recovery_incomplete"@ || code == "rollback_failed"@,
        exit_code_for(code) == 6 ==> code == "package_in_use"@,
        exit_code_for(code) == 8 ==> code == "platform_unsupported"@,
        exit_code_for(code) == 5 ==> code == "cancelled"@ || code == "dependency_cancelled"@,
{
}

}
