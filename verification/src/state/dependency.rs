//! What the dependency phase detected, acquired and installed. A record here
//! is history of a requirement being satisfied, not ownership: an uninstall
//! never plans from it.

use vstd::prelude::*;

verus! {

/// One recorded event.
#[derive(Debug, Clone, PartialEq, Eq)]
pub struct DependencyEvent {
    pub dependency_id: String,
    pub version: String,
    /// `detected`, `acquired`, `installed` or `reboot_required`.
    pub action: String,
    pub url: Option<String>,
    pub sha256: Option<String>,
    pub recorded_at: String,
}

}
