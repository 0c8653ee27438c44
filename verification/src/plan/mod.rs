//! Planning: desired state from the metadata and the effective options,
//! owned state from the database and actual state on the machine become an
//! ordered list of typed operations. Install, upgrade, reinstall, repair and
//! uninstall are the same reconciliation with different inputs: install has
//! no owned side, uninstall has no desired side, the others have both.

pub mod declared;
pub mod desired;
pub mod entries;
pub mod files;
pub mod keys;
pub mod laws;
pub mod operation;
pub mod outcomes;
pub mod part;
pub mod reconcile;
pub mod rules;
pub mod settled;
pub mod shortcuts;
pub mod target;
pub mod values;
pub mod whole;

pub use target::{absolute, to_relative};
