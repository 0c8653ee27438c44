//! The file resource: a payload entry installed at an install-relative path,
//! owned by its SHA-256.

use vstd::prelude::*;

use crate::error::{Error, ErrorView};
use crate::machine::Machine;
use crate::text;

verus! {

/// What a payload entry of another size than declared is refused with.
pub open spec fn size_mismatch(target: Seq<char>, written: u64, expected: u64) -> ErrorView {
    ErrorView {
        code: "payload_entry_size_mismatch"@,
        message: target + ": wrote "@ + text::decimal(written as nat)
            + " bytes, metadata declares "@ + text::decimal(expected as nat),
    }
}

/// Whether what was staged from the payload has the declared size, where one
/// is declared.
pub fn check_size(target: &str, written: u64, expected: Option<u64>) -> (r: Result<(), Error>)
    ensures
        match expected {
            Some(n) => if n == written {
                r is Ok
            } else {
                r matches Err(e) && e@ == size_mismatch(target@, written, n)
            },
            None => r is Ok,
        },
{
    match expected {
        Some(n) => {
            if n != written {
                let wrote = text::decimal_of(written);
                let declared = text::decimal_of(n);
                let message = text::cat5(
                    target,
                    ": wrote ",
                    wrote.as_str(),
                    " bytes, metadata declares ",
                    declared.as_str(),
                );
                return Err(Error::new("payload_entry_size_mismatch", message.as_str()));
            }
            Ok(())
        },
        None => Ok(()),
    }
}

/// Whether the file at `target` currently has `sha256`.
pub fn matches(target: &str, sha256: &str, machine: &Machine) -> (r: bool)
    ensures
        r == (machine.file(target@) matches Some(f) && f.sha256@ == sha256@),
{
    match machine.inspect_file(target) {
        Some(f) => text::same(f.sha256.as_str(), sha256),
        None => false,
    }
}

}
