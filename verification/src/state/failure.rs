//! What a database that could not be opened or read is reported as.

use vstd::prelude::*;

use crate::error::{Error, ErrorView};
use crate::text;

verus! {

/// Why a call of the database failed.
#[derive(Debug, Clone, Copy, PartialEq, Eq, Structural)]
pub enum Refusal {
    Busy,
    Locked,
    CannotOpen,
    PermissionDenied,
    ReadOnly,
    /// Anything else a call can fail with.
    Other,
}

/// What a failed call of the database is reported as.
pub open spec fn reported(refusal: Refusal, message: Seq<char>) -> ErrorView {
    match refusal {
        Refusal::Busy | Refusal::Locked => ErrorView {
            code: "database_busy"@,
            message: "the state database is in use by another TigerSetup process"@,
        },
        Refusal::CannotOpen | Refusal::PermissionDenied | Refusal::ReadOnly => ErrorView {
            code: "state_unreadable"@,
            message: "the state database cannot be opened: "@ + message,
        },
        Refusal::Other => ErrorView { code: "database_error"@, message },
    }
}

/// What a failed call of the database is reported as: a file another process
/// holds is busy; a file that is there but may not be opened that way — a
/// standard user reaching a machine-scope database it has no rights to, or a
/// read-only medium — is unreadable; anything else keeps its own message.
pub fn report(refusal: Refusal, message: &str) -> (r: Error)
    ensures
        r@ == reported(refusal, message@),
{
    match refusal {
        Refusal::Busy | Refusal::Locked => Error::new(
            "database_busy",
            "the state database is in use by another TigerSetup process",
        ),
        Refusal::CannotOpen | Refusal::PermissionDenied | Refusal::ReadOnly => {
            let message = text::cat2("the state database cannot be opened: ", message);
            Error::new("state_unreadable", message.as_str())
        },
        Refusal::Other => Error::new("database_error", message),
    }
}

}
