//! Committed ownership: the `installation` row, the typed resource tables
//! and the recorded installer options.

use vstd::prelude::*;

verus! {

/// The one installation a state database describes.
#[derive(Debug, Clone, PartialEq, Eq)]
pub struct InstallationRow {
    pub id: String,
    pub product_id: String,
    pub version: String,
    pub scope: String,
    pub install_root: String,
    pub engine_version: String,
    pub committed_at: String,
    /// The Add/Remove Programs key the installation registered under.
    pub registration_key: Option<String>,
    /// The hash of the licence text a person explicitly accepted on the
    /// wizard's licence page, carried by the transaction that installed this
    /// version or by an earlier one; `None` when nobody did — an unattended
    /// run proceeds without agreeing to anything.
    pub accepted_license_sha256: Option<String>,
}

/// What a stat is compared with: size and last-write time.
#[derive(Debug, Clone, Copy, PartialEq, Eq, Structural)]
pub struct Fingerprint {
    pub size: u64,
    pub modified: i64,
}

#[derive(Debug, Clone, PartialEq, Eq)]
pub struct OwnedFile {
    /// Install-relative path with backslashes.
    pub path: String,
    pub sha256: String,
    pub size: u64,
    /// The file's last-write time (`FILETIME`) once it had been put in
    /// place; `None` for a row written before it was recorded.
    pub modified: Option<i64>,
}

impl OwnedFile {
    /// The record a stat is compared with: size and last-write time.
    pub fn fingerprint(&self) -> (r: Option<Fingerprint>)
        ensures
            r == match self.modified {
                Some(modified) => Some(Fingerprint { size: self.size, modified }),
                None => None,
            },
    {
        match self.modified {
            Some(modified) => Some(Fingerprint { size: self.size, modified }),
            None => None,
        }
    }
}

#[derive(Debug, Clone, PartialEq, Eq)]
pub struct OwnedDirectory {
    /// Install-relative path with backslashes; empty for the install root.
    pub path: String,
    /// Whether the engine created it (and may therefore remove it when empty).
    pub created: bool,
}

#[derive(Debug, Clone, PartialEq, Eq)]
pub struct OwnedRegistryKey {
    /// `HKCU\...` or `HKLM\...`.
    pub key: String,
    /// Whether the engine created it (and may remove it once it is empty).
    pub created: bool,
}

#[derive(Debug, Clone, PartialEq, Eq)]
pub struct OwnedRegistryValue {
    pub key: String,
    pub name: String,
    /// The kind column of the data written.
    pub kind: String,
    /// The data column of the data written.
    pub data: String,
    /// The value was there before the engine wrote it; `previous_*` is what
    /// it held, and is what taking the value away puts back. A row that does
    /// not record it reads as `false`: the value is deleted when it still
    /// holds what was written.
    pub pre_existed: bool,
    pub previous_kind: Option<String>,
    pub previous_data: Option<String>,
}

#[derive(Debug, Clone, PartialEq, Eq)]
pub struct OwnedPathEntry {
    /// The environment key holding `Path`.
    pub hive_key: String,
    /// The exact text written (or found) in `Path`.
    pub raw: String,
    pub normalized: String,
    /// An equivalent entry existed before: never claimed.
    pub pre_existed: bool,
    /// The engine added it and removes it at uninstall.
    pub added: bool,
}

#[derive(Debug, Clone, PartialEq, Eq)]
pub struct OwnedShortcut {
    /// Absolute path of the `.lnk` or `.url`.
    pub path: String,
    /// Absolute path the link points at, or the URL an Internet shortcut
    /// opens.
    pub target: String,
}

/// A variable of the scope's environment the engine set.
#[derive(Debug, Clone, PartialEq, Eq)]
pub struct OwnedEnvironmentVariable {
    /// The environment key holding the variable.
    pub hive_key: String,
    pub name: String,
    /// The columns of what was written.
    pub kind: String,
    pub data: String,
    /// The variable was there before it was written; `previous_*` is what it
    /// held, and is what a removal puts back.
    pub pre_existed: bool,
    pub previous_kind: Option<String>,
    pub previous_data: Option<String>,
}

/// A Windows Firewall rule the engine created.
#[derive(Debug, Clone, PartialEq, Eq)]
pub struct OwnedFirewallRule {
    pub name: String,
    /// The rule as written, in its stored form.
    pub rule: String,
}

/// An uninstall-phase action the installation carries for its own future
/// uninstall: its definition, hex-encoded, and, for a packaged program, the
/// identity of the file the state directory keeps under `actions\<sha256>\`.
#[derive(Debug, Clone, PartialEq, Eq)]
pub struct OwnedAction {
    pub name: String,
    /// `pre-uninstall` or `post-uninstall`.
    pub phase: String,
    pub definition: String,
    pub artifact_sha256: Option<String>,
    pub artifact_file: Option<String>,
    pub artifact_size: Option<u64>,
}

/// Everything the database says the installation owns.
#[derive(Debug, Clone, PartialEq, Eq)]
pub struct Owned {
    pub files: Vec<OwnedFile>,
    pub directories: Vec<OwnedDirectory>,
    pub registry_keys: Vec<OwnedRegistryKey>,
    pub registry_values: Vec<OwnedRegistryValue>,
    pub path_entries: Vec<OwnedPathEntry>,
    pub shortcuts: Vec<OwnedShortcut>,
    pub environment_variables: Vec<OwnedEnvironmentVariable>,
    pub firewall_rules: Vec<OwnedFirewallRule>,
    pub actions: Vec<OwnedAction>,
    pub registration_key: Option<String>,
}

impl Default for Owned {
    /// Nothing owned.
    fn default() -> (r: Owned)
        ensures
            r.files@.len() == 0,
            r.directories@.len() == 0,
            r.registry_keys@.len() == 0,
            r.registry_values@.len() == 0,
            r.path_entries@.len() == 0,
            r.shortcuts@.len() == 0,
            r.environment_variables@.len() == 0,
            r.firewall_rules@.len() == 0,
            r.actions@.len() == 0,
            r.registration_key is None,
    {
        Owned {
            files: Vec::new(),
            directories: Vec::new(),
            registry_keys: Vec::new(),
            registry_values: Vec::new(),
            path_entries: Vec::new(),
            shortcuts: Vec::new(),
            environment_variables: Vec::new(),
            firewall_rules: Vec::new(),
            actions: Vec::new(),
            registration_key: None,
        }
    }
}

}
