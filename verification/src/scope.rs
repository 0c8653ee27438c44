//! Every choice that depends on the installation scope, in one place: the
//! hive and its software root, the environment key that holds `Path`, the
//! Add/Remove Programs root, the shortcut folders, the roots the identity
//! module derives, the access control list of a machine-scope state
//! directory, and the confinement that decides whether a location stored in
//! the database may be mutated at all.
//!
//! Confinement matters because a machine-scope uninstall runs elevated and
//! plans from the database. `plan::absolute` already keeps every stored file
//! path under the install root; the same reasoning applies to the other
//! resource kinds, so a tampered row can name only a registry key under the
//! scope's software root, Add/Remove Programs root or environment key, and
//! only a shortcut inside the scope's own Start Menu or desktop folder.

use vstd::prelude::*;

use crate::acl;
use crate::acl::{Ace, AceView, Dacl, DaclView};
use crate::error::{Error, ErrorView};
use crate::identity;
use crate::lists;
use crate::machine;
use crate::machine::{Hive, KeyPath, KeyView, Machine};
use crate::metadata::{Scope, ShortcutLocation};
use crate::state::installation::{
    Owned, OwnedPathEntry, OwnedRegistryKey, OwnedRegistryValue,
};
use crate::text;

verus! {

/// The machine-scope state directory's security: owned by the local
/// Administrators group, full control for SYSTEM and Administrators, read and
/// execute for everyone else, inheriting nothing and inherited by everything
/// inside.
///
/// The owner is part of it. `%ProgramData%` lets any user create a
/// subdirectory, and an object's owner keeps `WRITE_DAC` however the list
/// reads — so a state directory a standard user created first would stay that
/// user's to reopen, and the uninstaller in it is a binary Add/Remove
/// Programs later runs elevated.
pub const MACHINE_STATE_DIRECTORY_DACL: &'static str =
    "O:BAD:(A;OICI;FA;;;SY)(A;OICI;FA;;;BA)(A;OICI;0x1200a9;;;BU)";

/// The owners a machine-scope state directory may already have: SYSTEM and
/// the local Administrators group. Anything else means an unprivileged user
/// got there first. Both spellings count, because Windows writes a well-known
/// trustee back as its alias rather than the identifier it was given.
pub open spec fn is_trusted(owner: Seq<char>) -> bool {
    ||| text::lower(owner) == text::lower("S-1-5-18"@)
    ||| text::lower(owner) == text::lower("S-1-5-32-544"@)
    ||| text::lower(owner) == text::lower("SY"@)
    ||| text::lower(owner) == text::lower("BA"@)
}

fn trusts(owner: &str) -> (r: bool)
    ensures
        r == is_trusted(owner@),
{
    text::same_folded(owner, "S-1-5-18") || text::same_folded(owner, "S-1-5-32-544")
        || text::same_folded(owner, "SY") || text::same_folded(owner, "BA")
}

/// The hive a scope writes.
pub open spec fn hive_of(scope: Scope) -> Hive {
    match scope {
        Scope::User => Hive::CurrentUser,
        Scope::Machine => Hive::LocalMachine,
    }
}

/// `HKCU\Software` or `HKLM\Software`.
pub open spec fn software_root(scope: Scope) -> KeyView {
    KeyView { hive: hive_of(scope), subkey: "Software"@ }
}

/// The key whose `Path` value is the scope's PATH.
pub open spec fn environment_key(scope: Scope) -> KeyView {
    KeyView {
        hive: hive_of(scope),
        subkey: match scope {
            Scope::User => "Environment"@,
            Scope::Machine => "SYSTEM\\CurrentControlSet\\Control\\Session Manager\\Environment"@,
        },
    }
}

/// The Add/Remove Programs root of a scope.
pub open spec fn uninstall_root(scope: Scope) -> KeyView {
    KeyView {
        hive: hive_of(scope),
        subkey: "Software\\Microsoft\\Windows\\CurrentVersion\\Uninstall"@,
    }
}

/// Template of the Start Menu Programs folder.
pub open spec fn programs_folder(scope: Scope) -> Seq<char> {
    match scope {
        Scope::User => "%PROGRAMS%"@,
        Scope::Machine => "%COMMONPROGRAMS%"@,
    }
}

/// Template of the desktop folder.
pub open spec fn desktop_folder(scope: Scope) -> Seq<char> {
    match scope {
        Scope::User => "%DESKTOP%"@,
        Scope::Machine => "%COMMONDESKTOP%"@,
    }
}

/// Template of the folder a shortcut location is in a scope; machine scope
/// has no Send To folder.
pub open spec fn location_folder(scope: Scope, location: ShortcutLocation) -> Option<Seq<char>> {
    match (location, scope) {
        (ShortcutLocation::StartMenu, _) => Some(programs_folder(scope)),
        (ShortcutLocation::Desktop, _) => Some(desktop_folder(scope)),
        (ShortcutLocation::Startup, Scope::User) => Some("%STARTUP%"@),
        (ShortcutLocation::Startup, Scope::Machine) => Some("%COMMONSTARTUP%"@),
        (ShortcutLocation::SendTo, Scope::User) => Some("%SENDTO%"@),
        (ShortcutLocation::SendTo, Scope::Machine) => None,
    }
}

#[derive(Debug, PartialEq, Eq)]
pub struct Locations {
    pub scope: Scope,
    pub hive: Hive,
    /// `HKCU\Software` or `HKLM\Software`: product registry values live
    /// below it.
    pub software_root: KeyPath,
    /// The key whose `Path` value is the scope's PATH.
    pub environment_key: KeyPath,
    /// `...\Microsoft\Windows\CurrentVersion\Uninstall` of the hive.
    pub uninstall_root: KeyPath,
    /// Template of the Start Menu Programs folder.
    pub programs_folder: &'static str,
    /// Template of the desktop folder.
    pub desktop_folder: &'static str,
}

/// What [`Locations`] are.
#[verifier::ext_equal]
pub struct LocationsView {
    pub scope: Scope,
    pub hive: Hive,
    pub software_root: KeyView,
    pub environment_key: KeyView,
    pub uninstall_root: KeyView,
    pub programs_folder: Seq<char>,
    pub desktop_folder: Seq<char>,
}

impl View for Locations {
    type V = LocationsView;

    open spec fn view(&self) -> LocationsView {
        LocationsView {
            scope: self.scope,
            hive: self.hive,
            software_root: self.software_root@,
            environment_key: self.environment_key@,
            uninstall_root: self.uninstall_root@,
            programs_folder: self.programs_folder@,
            desktop_folder: self.desktop_folder@,
        }
    }
}

/// The locations of a scope.
pub open spec fn located(scope: Scope) -> LocationsView {
    LocationsView {
        scope,
        hive: hive_of(scope),
        software_root: software_root(scope),
        environment_key: environment_key(scope),
        uninstall_root: uninstall_root(scope),
        programs_folder: programs_folder(scope),
        desktop_folder: desktop_folder(scope),
    }
}

impl Locations {
    /// Whether these are the locations of their scope.
    pub open spec fn well_formed(self) -> bool {
        self@ == located(self.scope)
    }
}

/// The locations of a scope.
pub fn locations(scope: Scope) -> (r: Locations)
    ensures
        r.scope == scope,
        r.well_formed(),
{
    let hive = match scope {
        Scope::User => Hive::CurrentUser,
        Scope::Machine => Hive::LocalMachine,
    };
    Locations {
        scope,
        hive,
        software_root: KeyPath::new(hive, "Software"),
        environment_key: match scope {
            Scope::User => KeyPath::new(hive, "Environment"),
            Scope::Machine => KeyPath::new(
                hive,
                "SYSTEM\\CurrentControlSet\\Control\\Session Manager\\Environment",
            ),
        },
        uninstall_root: KeyPath::new(
            hive,
            "Software\\Microsoft\\Windows\\CurrentVersion\\Uninstall",
        ),
        programs_folder: match scope {
            Scope::User => "%PROGRAMS%",
            Scope::Machine => "%COMMONPROGRAMS%",
        },
        desktop_folder: match scope {
            Scope::User => "%DESKTOP%",
            Scope::Machine => "%COMMONDESKTOP%",
        },
    }
}

/// The first component of a path.
pub open spec fn first_component(subkey: Seq<char>) -> Seq<char> {
    match text::find(subkey, '\\') {
        Some(i) => subkey.take(i),
        None => subkey,
    }
}

/// The deepest key Windows itself owns above a key: `Software`, its class
/// and application-path roots, or the hive's top-level key for a location
/// outside `Software`. Keys are created down from there, so that a key of
/// Windows's own is never claimed.
pub open spec fn chain_root(key: KeyView) -> KeyView {
    let app_paths = KeyView {
        hive: key.hive,
        subkey: "Software\\Microsoft\\Windows\\CurrentVersion\\App Paths"@,
    };
    let classes = KeyView { hive: key.hive, subkey: "Software\\Classes"@ };
    let software = KeyView { hive: key.hive, subkey: "Software"@ };
    if key.is_under(app_paths) {
        app_paths
    } else if key.is_under(classes) {
        classes
    } else if key.is_under(software) {
        software
    } else {
        KeyView { hive: key.hive, subkey: first_component(key.subkey) }
    }
}

/// Whether a registry key is one a scope may mutate.
pub open spec fn may_mutate(scope: Scope, key: KeyView) -> bool {
    ||| key.is_under(software_root(scope))
    ||| key.is_under(uninstall_root(scope))
    ||| key.is_under(environment_key(scope))
}

/// What a location outside the scope is refused with.
pub open spec fn outside(message: Seq<char>) -> ErrorView {
    ErrorView { code: "path_outside_root"@, message }
}

/// What a stored key outside the scope is refused with.
pub open spec fn key_outside(scope: Scope, key: KeyView) -> ErrorView {
    outside(
        "stored registry key "@ + key.text() + " is outside "@ + software_root(scope).text() + ", "@
            + uninstall_root(scope).text() + " and "@ + environment_key(scope).text(),
    )
}

/// Why a stored key may not be mutated in a scope: it names no key, or one
/// outside the scope.
pub open spec fn key_refusal(scope: Scope, stored: Seq<char>) -> Option<ErrorView> {
    match machine::parsed_key(stored) {
        None => Some(machine::not_a_key(stored)),
        Some(key) => if may_mutate(scope, key) {
            None
        } else {
            Some(key_outside(scope, key))
        },
    }
}

/// Holds of the stored keys a scope refuses.
pub open spec fn refused_in(scope: Scope) -> spec_fn(Seq<char>) -> bool {
    |stored: Seq<char>| key_refusal(scope, stored) is Some
}

/// Every registry key an installation's records name: its keys, the keys of
/// its values, the keys of its PATH entries, its registration key.
pub open spec fn stored_keys(owned: Owned) -> Seq<Seq<char>> {
    owned.registry_keys@.map_values(|k: OwnedRegistryKey| k.key@)
        + owned.registry_values@.map_values(|v: OwnedRegistryValue| v.key@)
        + owned.path_entries@.map_values(|e: OwnedPathEntry| e.hive_key@) + match
        owned.registration_key {
        Some(key) => seq![key@],
        None => Seq::<Seq<char>>::empty(),
    }
}

/// Whether `path` lies below `folder`, without regard to case.
pub open spec fn below(path: Seq<char>, folder: Seq<char>) -> bool {
    let root = text::lower(text::trim_end(folder, '\\'));
    root.len() > 0 && (root + "\\"@).is_prefix_of(text::lower(path))
}

/// Whether a link lies in one of `folders`.
pub open spec fn inside(link: Seq<char>, folders: Seq<String>) -> bool {
    exists|i: int| 0 <= i < folders.len() && below(link, #[trigger] folders[i]@)
}

/// Whether `path` lies below `folder`, comparing case-insensitively as
/// Windows paths do.
fn under(path: &str, folder: &str) -> (r: bool)
    ensures
        r == below(path@, folder@),
{
    let trimmed = text::trim_end_of(folder, '\\');
    let root = text::lower_of(trimmed.as_str());
    let path = text::lower_of(path);
    let prefix = text::cat2(root.as_str(), "\\");
    !root.as_str().is_empty() && text::starts_with(path.as_str(), prefix.as_str())
}

/// Whether a link lies in one of `folders`. The planner and the executor ask
/// the same question at different moments and must get the same answer, so
/// they ask it here.
pub fn is_inside(link: &str, folders: &Vec<String>) -> (r: bool)
    ensures
        r == inside(link@, folders@),
{
    let mut i: usize = 0;
    while i < folders.len()
        invariant
            i <= folders@.len(),
            forall|j: int| 0 <= j < i ==> !below(link@, #[trigger] folders@[j]@),
        decreases folders@.len() - i,
    {
        if under(link, folders[i].as_str()) {
            return true;
        }
        i = i + 1;
    }
    false
}

/// The scope's shortcut folders on a machine, or the first that cannot be
/// named there.
pub open spec fn folders_of(scope: Scope, machine: Machine) -> Result<
    Seq<Seq<char>>,
    ErrorView,
> {
    match identity::template(programs_folder(scope), machine) {
        Err(e) => Err(e),
        Ok(programs) => match identity::template(desktop_folder(scope), machine) {
            Err(e) => Err(e),
            Ok(desktop) => Ok(seq![programs, desktop]),
        },
    }
}

/// What a stored shortcut outside the scope's folders is refused with.
pub open spec fn shortcut_outside(link: Seq<char>, folders: Seq<Seq<char>>) -> ErrorView {
    outside(
        "stored shortcut "@ + link + " is outside "@ + text::join(folders, " and "@),
    )
}

impl Locations {
    /// The state directory template for a product.
    pub fn state_directory_template(&self, product_id: &str) -> (r: String)
        ensures
            r@ == identity::state_template(self.scope, product_id@),
    {
        identity::state_directory_template(self.scope, product_id)
    }

    /// The Add/Remove Programs key of a registration key name.
    pub fn registration_key(&self, key_name: &str) -> (r: KeyPath)
        ensures
            r@ == self.uninstall_root@.child(key_name@),
    {
        self.uninstall_root.child(key_name)
    }

    /// A product key path relative to the software root.
    pub fn software_key(&self, relative: &str) -> (r: KeyPath)
        ensures
            r@ == self.software_root@.child(relative@),
    {
        self.software_root.child(relative)
    }

    /// Template of the folder a shortcut location is in this scope.
    pub fn shortcut_folder(&self, location: ShortcutLocation) -> (r: Option<&'static str>)
        requires
            self.well_formed(),
        ensures
            text::option_view(r) == location_folder(self.scope, location),
    {
        match (location, self.scope) {
            (ShortcutLocation::StartMenu, _) => Some(self.programs_folder),
            (ShortcutLocation::Desktop, _) => Some(self.desktop_folder),
            (ShortcutLocation::Startup, Scope::User) => Some("%STARTUP%"),
            (ShortcutLocation::Startup, Scope::Machine) => Some("%COMMONSTARTUP%"),
            (ShortcutLocation::SendTo, Scope::User) => Some("%SENDTO%"),
            (ShortcutLocation::SendTo, Scope::Machine) => None,
        }
    }

    /// The Start Menu Programs and desktop folders of this scope, resolved
    /// on this machine.
    pub fn shortcut_folders(&self, machine: &Machine) -> (r: Result<Vec<String>, Error>)
        requires
            self.well_formed(),
        ensures
            match (r, folders_of(self.scope, *machine)) {
                (Ok(a), Ok(b)) => text::views(a@) == b,
                (Err(a), Err(b)) => a@ == b,
                _ => false,
            },
    {
        match identity::expand_template(self.programs_folder, machine) {
            Err(e) => Err(e),
            Ok(programs) => match identity::expand_template(self.desktop_folder, machine) {
                Err(e) => Err(e),
                Ok(desktop) => {
                    let mut out: Vec<String> = Vec::new();
                    out.push(programs);
                    out.push(desktop);
                    assert(text::views(out@) =~= seq![programs@, desktop@]);
                    Ok(out)
                },
            },
        }
    }

    /// The deepest key Windows itself owns above a key of this scope.
    pub fn key_chain_root(&self, key: &KeyPath) -> (r: KeyPath)
        ensures
            r@ == chain_root(key@),
    {
        let app_paths = KeyPath::new(
            key.hive,
            "Software\\Microsoft\\Windows\\CurrentVersion\\App Paths",
        );
        let classes = KeyPath::new(key.hive, "Software\\Classes");
        let software = KeyPath::new(key.hive, "Software");
        if key.is_under(&app_paths) {
            app_paths
        } else if key.is_under(&classes) {
            classes
        } else if key.is_under(&software) {
            software
        } else {
            let v = text::chars_of(key.subkey.as_str());
            assert(v@.skip(0) =~= v@);
            match text::find_from(&v, 0, '\\') {
                Some(i) => {
                    let head = text::slice_of(&v, 0, i);
                    assert(head@ =~= v@.take(i as int));
                    KeyPath { hive: key.hive, subkey: text::string_of(&head) }
                },
                None => key.clone(),
            }
        }
    }

    /// Whether a stored registry key is one this scope may mutate: the
    /// scope's software root (which contains its Add/Remove Programs root)
    /// or its environment key.
    pub fn allows_key(&self, key: &KeyPath) -> (r: bool)
        requires
            self.well_formed(),
        ensures
            r == may_mutate(self.scope, key@),
    {
        key.is_under(&self.software_root) || key.is_under(&self.uninstall_root) || key.is_under(
            &self.environment_key,
        )
    }

    /// Refuses a stored registry key that lies outside this scope.
    pub fn confine_key(&self, key: &KeyPath) -> (r: Result<(), Error>)
        requires
            self.well_formed(),
        ensures
            match r {
                Ok(()) => may_mutate(self.scope, key@),
                Err(e) => !may_mutate(self.scope, key@) && e@ == key_outside(self.scope, key@),
            },
    {
        if self.allows_key(key) {
            return Ok(());
        }
        let shown = key.to_string();
        let software = self.software_root.to_string();
        let uninstall = self.uninstall_root.to_string();
        let environment = self.environment_key.to_string();
        let head = text::cat4(
            "stored registry key ",
            shown.as_str(),
            " is outside ",
            software.as_str(),
        );
        let message = text::cat5(
            head.as_str(),
            ", ",
            uninstall.as_str(),
            " and ",
            environment.as_str(),
        );
        Err(Error::new("path_outside_root", message.as_str()))
    }

    /// Refuses a stored shortcut path that lies outside this scope's Start
    /// Menu Programs and desktop folders.
    pub fn confine_shortcut(&self, link: &str, machine: &Machine) -> (r: Result<(), Error>)
        requires
            self.well_formed(),
        ensures
            match folders_of(self.scope, *machine) {
                Err(e) => r matches Err(f) && f@ == e,
                Ok(folders) => if exists|i: int|
                    0 <= i < folders.len() && below(link@, #[trigger] folders[i]) {
                    r is Ok
                } else {
                    r matches Err(f) && f@ == shortcut_outside(link@, folders)
                },
            },
    {
        let folders = match self.shortcut_folders(machine) {
            Err(e) => return Err(e),
            Ok(folders) => folders,
        };
        let ghost named = text::views(folders@);
        proof {
            assert forall|i: int| 0 <= i < folders@.len() implies #[trigger] folders@[i]@
                == named[i] by {}
            assert(inside(link@, folders@) <==> exists|i: int|
                0 <= i < named.len() && below(link@, #[trigger] named[i])) by {
                if inside(link@, folders@) {
                    let i = choose|i: int|
                        0 <= i < folders@.len() && below(link@, #[trigger] folders@[i]@);
                    assert(below(link@, named[i]));
                }
                if exists|i: int| 0 <= i < named.len() && below(link@, #[trigger] named[i]) {
                    let i = choose|i: int| 0 <= i < named.len() && below(link@, #[trigger] named[i]);
                    assert(below(link@, folders@[i]@));
                }
            }
        }
        if is_inside(link, &folders) {
            return Ok(());
        }
        let list = text::join_of(&folders, " and ");
        let message = text::cat4("stored shortcut ", link, " is outside ", list.as_str());
        Err(Error::new("path_outside_root", message.as_str()))
    }

    /// Refuses everything in `owned` that this scope may not mutate, before
    /// a plan is made from it: the registry keys and values, the PATH hives
    /// and the registration key. A hive does not move, so a stored key
    /// outside this scope means the database is wrong about the machine and
    /// the run must not continue.
    ///
    /// Shortcuts are deliberately not refused here. Their folders *do* move
    /// under a live installation — OneDrive's Known Folder Move relocates the
    /// desktop, policy can redirect the Start Menu — and refusing the run
    /// would leave the product uninstallable. The planner preserves and
    /// reports such a link instead, and the executor still refuses to act on
    /// one, so nothing outside the scope is touched either way.
    ///
    /// Stored file and directory paths are confined to the install root by
    /// `plan::absolute` where they are used.
    pub fn confine_owned(&self, owned: &Owned) -> (r: Result<(), Error>)
        requires
            self.well_formed(),
        ensures
            match lists::first(stored_keys(*owned), refused_in(self.scope)) {
                None => r is Ok,
                Some(stored) => r matches Err(e) && Some(e@) == key_refusal(self.scope, stored),
            },
    {
        let mut keys: Vec<String> = Vec::new();
        let ghost from_keys = owned.registry_keys@.map_values(|k: OwnedRegistryKey| k.key@);
        let ghost from_values = owned.registry_values@.map_values(|v: OwnedRegistryValue| v.key@);
        let ghost from_entries = owned.path_entries@.map_values(|e: OwnedPathEntry| e.hive_key@);
        let mut i: usize = 0;
        while i < owned.registry_keys.len()
            invariant
                i <= owned.registry_keys@.len(),
                from_keys == owned.registry_keys@.map_values(|k: OwnedRegistryKey| k.key@),
                text::views(keys@) == from_keys.take(i as int),
            decreases owned.registry_keys@.len() - i,
        {
            let key = owned.registry_keys[i].key.clone();
            proof {
                text::lemma_views_push(keys@, key);
            }
            keys.push(key);
            i = i + 1;
            assert(from_keys.take(i as int) =~= from_keys.take(i - 1).push(from_keys[i - 1]));
        }
        assert(from_keys.take(i as int) =~= from_keys);
        let mut i: usize = 0;
        assert(from_keys + from_values.take(0) =~= from_keys);
        while i < owned.registry_values.len()
            invariant
                i <= owned.registry_values@.len(),
                from_values == owned.registry_values@.map_values(|v: OwnedRegistryValue| v.key@),
                text::views(keys@) == from_keys + from_values.take(i as int),
            decreases owned.registry_values@.len() - i,
        {
            let key = owned.registry_values[i].key.clone();
            proof {
                text::lemma_views_push(keys@, key);
            }
            keys.push(key);
            i = i + 1;
            assert(from_keys + from_values.take(i as int) =~= (from_keys + from_values.take(
                i - 1,
            )).push(from_values[i - 1]));
        }
        assert(from_values.take(i as int) =~= from_values);
        let mut i: usize = 0;
        assert(from_keys + from_values + from_entries.take(0) =~= from_keys + from_values);
        while i < owned.path_entries.len()
            invariant
                i <= owned.path_entries@.len(),
                from_entries == owned.path_entries@.map_values(|e: OwnedPathEntry| e.hive_key@),
                text::views(keys@) == from_keys + from_values + from_entries.take(i as int),
            decreases owned.path_entries@.len() - i,
        {
            let key = owned.path_entries[i].hive_key.clone();
            proof {
                text::lemma_views_push(keys@, key);
            }
            keys.push(key);
            i = i + 1;
            assert(from_keys + from_values + from_entries.take(i as int) =~= (from_keys
                + from_values + from_entries.take(i - 1)).push(from_entries[i - 1]));
        }
        assert(from_entries.take(i as int) =~= from_entries);
        if let Some(key) = &owned.registration_key {
            let key = key.clone();
            proof {
                text::lemma_views_push(keys@, key);
            }
            keys.push(key);
        }
        assert(text::views(keys@) =~= stored_keys(*owned));
        self.confine_keys(&keys)
    }

    /// Refuses the first of the stored keys that this scope may not mutate.
    fn confine_keys(&self, keys: &Vec<String>) -> (r: Result<(), Error>)
        requires
            self.well_formed(),
        ensures
            match lists::first(text::views(keys@), refused_in(self.scope)) {
                None => r is Ok,
                Some(stored) => r matches Err(e) && Some(e@) == key_refusal(self.scope, stored),
            },
    {
        let ghost all = text::views(keys@);
        let ghost refused = refused_in(self.scope);
        let mut i: usize = 0;
        while i < keys.len()
            invariant
                i <= keys@.len(),
                self.well_formed(),
                all == text::views(keys@),
                refused == refused_in(self.scope),
                forall|j: int| 0 <= j < i ==> !refused(#[trigger] all[j]),
            decreases keys@.len() - i,
        {
            assert(all[i as int] == keys@[i as int]@);
            match KeyPath::parse(keys[i].as_str()) {
                Err(e) => {
                    proof {
                        lists::lemma_first_at(all, refused, i as int);
                    }
                    return Err(e);
                },
                Ok(key) => match self.confine_key(&key) {
                    Err(e) => {
                        proof {
                            lists::lemma_first_at(all, refused, i as int);
                        }
                        return Err(e);
                    },
                    Ok(()) => {},
                },
            }
            i = i + 1;
        }
        proof {
            lists::lemma_first_none(all, refused);
        }
        Ok(())
    }

    /// Decides what becomes of the machine-scope state directory's owner and
    /// access control list, before anything is written into it: a list that
    /// has drifted is written again, and an owner that is not trusted loses
    /// the directory. A user-scope directory keeps the profile's own
    /// protection. `current` is the list the directory carries, where it can
    /// be read.
    ///
    /// Both halves are checked, because a directory can carry the right list
    /// and the wrong owner: `%ProgramData%` lets any user create a
    /// subdirectory, and the creator owns what it creates.
    pub fn protect_state_directory(
        &self,
        elevated: bool,
        owner: &str,
        current: Option<&str>,
    ) -> (r: Protection)
        ensures
            r == if self.scope != Scope::Machine {
                Protection::NotApplicable
            } else if !elevated {
                Protection::Unprivileged
            } else if !is_trusted(owner@) {
                Protection::Claimed
            } else if current matches Some(c) && is_intact(c@) {
                Protection::Intact
            } else {
                Protection::Written
            },
    {
        if !matches!(self.scope, Scope::Machine) {
            return Protection::NotApplicable;
        }
        if !elevated {
            return Protection::Unprivileged;
        }
        if !trusts(owner) {
            return Protection::Claimed;
        }
        match current {
            Some(descriptor) => match Dacl::parse(descriptor) {
                Some(list) => {
                    let wanted = expected_state_directory_dacl();
                    if list.is(&wanted) {
                        Protection::Intact
                    } else {
                        Protection::Written
                    }
                },
                None => Protection::Written,
            },
            None => Protection::Written,
        }
    }
}

/// An entry that allows a trustee a mask on the directory and everything in
/// it.
pub open spec fn allows(mask: u32, trustee: Seq<char>) -> AceView {
    AceView { kind: "A"@, flags: "OICI"@, mask, trustee }
}

/// The access control list a machine-scope state directory is to carry: full
/// control for SYSTEM and Administrators, read and execute for users.
pub open spec fn expected_list() -> DaclView {
    DaclView {
        protected: false,
        entries: seq![
            allows(0x1f01ff, "SY"@),
            allows(0x1f01ff, "BA"@),
            allows(0x1200a9, "BU"@),
        ],
    }
}

fn allow(mask: u32, trustee: &str) -> (r: Ace)
    ensures
        r@ == allows(mask, trustee@),
{
    Ace {
        kind: text::owned("A"),
        flags: text::owned("OICI"),
        mask,
        trustee: text::owned(trustee),
    }
}

/// Whether a security descriptor carries exactly the wanted list.
pub open spec fn is_intact(descriptor: Seq<char>) -> bool {
    match acl::parsed(descriptor) {
        Some(list) => list.protected && list.entries.to_multiset()
            == expected_list().entries.to_multiset(),
        None => false,
    }
}

/// The list [`MACHINE_STATE_DIRECTORY_DACL`] spells, for comparison with what
/// a directory carries.
pub fn expected_state_directory_dacl() -> (r: Dacl)
    ensures
        r@ == expected_list(),
{
    let mut entries: Vec<Ace> = Vec::new();
    entries.push(allow(0x1f01ff, "SY"));
    entries.push(allow(0x1f01ff, "BA"));
    entries.push(allow(0x1200a9, "BU"));
    assert(text::views(entries@) =~= expected_list().entries);
    Dacl { protected: false, entries }
}

/// What [`Locations::protect_state_directory`] finds to do with the
/// directory.
#[derive(Debug, Clone, Copy, PartialEq, Eq, Structural)]
pub enum Protection {
    /// User scope: the state directory is inside the user's own profile,
    /// which already keeps every other user out of it.
    NotApplicable,
    /// Machine scope without an administrator token. Production never
    /// reaches here — a machine-scope run elevates first — and the folder
    /// seams that do reach it put the directory inside a tree the caller
    /// owns, where no access control list protects anything from the
    /// caller.
    Unprivileged,
    /// The list was already the one this engine writes.
    Intact,
    /// The list is to be written: the directory was new, or its list had
    /// drifted.
    Written,
    /// The directory already existed and somebody else owned it — a standard
    /// user may create it under `%ProgramData%` before any install. Its
    /// ownership and its list are to be taken over.
    Claimed,
}

impl Protection {
    /// The stable code a run logs for this result, or `None` where there is
    /// nothing worth saying.
    pub fn code(self) -> (r: Option<&'static str>)
        ensures
            text::option_view(r) == match self {
                Protection::NotApplicable | Protection::Intact => None,
                Protection::Unprivileged => Some("state_directory_protection_skipped"@),
                Protection::Written => Some("state_directory_protected"@),
                Protection::Claimed => Some("state_directory_ownership_claimed"@),
            },
    {
        match self {
            Protection::NotApplicable => None,
            Protection::Intact => None,
            Protection::Unprivileged => Some("state_directory_protection_skipped"),
            Protection::Written => Some("state_directory_protected"),
            Protection::Claimed => Some("state_directory_ownership_claimed"),
        }
    }
}

/// Records that were confined name only keys of their scope: nothing outside
/// its hive, and within it nothing outside the software root, the
/// Add/Remove Programs root and the environment key.
pub proof fn lemma_confined_keys_stay_in_scope(scope: Scope, owned: Owned, i: int)
    requires
        lists::first(stored_keys(owned), refused_in(scope)) is None,
        0 <= i < stored_keys(owned).len(),
    ensures
        match machine::parsed_key(stored_keys(owned)[i]) {
            Some(key) => key.hive == hive_of(scope) && may_mutate(scope, key),
            None => false,
        },
{
    lists::lemma_first_fits(stored_keys(owned), refused_in(scope));
    assert(!refused_in(scope)(stored_keys(owned)[i]));
}

/// What lies below a folder: whatever goes on after it and a separator, in any
/// case, and nothing lies below no folder.
pub proof fn lemma_what_lies_below_a_folder(folder: Seq<char>, rest: Seq<char>, path: Seq<char>)
    requires
        folder.len() > 0,
        folder.last() != '\\',
    ensures
        below(folder + seq!['\\'] + rest, folder),
        below(path, folder) ==> path.len() > folder.len() && path[folder.len() as int] == '\\'
            && text::lower(path.take(folder.len() as int)) == text::lower(folder),
        below(path, folder) <==> below(path, folder + seq!['\\']),
        !below(path, Seq::<char>::empty()),
{
    reveal_strlit("\\");
    assert("\\"@ =~= seq!['\\']);
    text::lemma_trim_end_of_run(folder, Seq::<char>::empty(), '\\');
    assert(folder + Seq::<char>::empty() =~= folder);
    text::lemma_trim_end_of_run(folder, seq!['\\'], '\\');
    let n = folder.len() as int;
    let root = text::lower(folder);
    let p = folder + seq!['\\'] + rest;
    assert(text::lower(p).take(n + 1) =~= root + seq!['\\']);
    if below(path, folder) {
        let l = text::lower(path);
        let r = root + seq!['\\'];
        assert(l.take(n + 1) =~= r);
        assert(l.take(n + 1)[n] == l[n]);
        text::lemma_what_folding_changes(path, n);
        assert(text::lower(path.take(n)) =~= root) by {
            assert forall|i: int| 0 <= i < n implies text::lower(path.take(n))[i] == root[i] by {
                assert(l.take(n + 1)[i] == l[i]);
            }
        }
    }
}

/// What a scope may write in the registry: its own hive alone, and there the
/// software, the installed programs and the environment.
pub proof fn lemma_what_a_scope_may_write(scope: Scope, key: KeyView)
    ensures
        may_mutate(scope, key) ==> key.hive == (if scope == Scope::User {
            Hive::CurrentUser
        } else {
            Hive::LocalMachine
        }),
        may_mutate(scope, key) <==> key.is_under(
            KeyView { hive: hive_of(scope), subkey: "Software"@ },
        ) || key.is_under(uninstall_root(scope)) || key.is_under(environment_key(scope)),
{
}

/// The root that the keys of a product are created below is above the key, in
/// its hive, and the nearest of those that are Windows' own.
pub proof fn lemma_the_root_of_a_key(key: KeyView)
    ensures
        ({
            let r = chain_root(key);
            let paths = KeyView {
                hive: key.hive,
                subkey: "Software\\Microsoft\\Windows\\CurrentVersion\\App Paths"@,
            };
            let classes = KeyView { hive: key.hive, subkey: "Software\\Classes"@ };
            let software = KeyView { hive: key.hive, subkey: "Software"@ };
            &&& key.is_under(r)
            &&& r.hive == key.hive
            &&& key.is_under(paths) ==> r == paths
            &&& !key.is_under(paths) && key.is_under(classes) ==> r == classes
            &&& !key.is_under(paths) && !key.is_under(classes) && key.is_under(software) ==> r
                == software
            &&& !key.is_under(paths) && !key.is_under(classes) && !key.is_under(software)
                ==> !r.subkey.contains('\\')
        }),
{
    let r = chain_root(key);
    text::lemma_find(key.subkey, '\\');
    match text::find(key.subkey, '\\') {
        Some(i) => {
            let first = key.subkey.take(i);
            assert(!first.contains('\\')) by {
                if first.contains('\\') {
                    let j = choose|j: int| 0 <= j < first.len() && first[j] == '\\';
                    assert(key.subkey[j] == '\\');
                }
            }
            assert(text::lower(key.subkey).take(i + 1) =~= text::lower(first) + seq!['\\']);
            assert((text::lower(first) + seq!['\\']).is_prefix_of(text::lower(key.subkey)));
        },
        None => {},
    }
}

/// A directory is intact where its list is protected and grants the system and
/// the administrators everything and the users reading, and nothing else, in
/// any order.
pub proof fn lemma_what_an_intact_list_says(descriptor: Seq<char>)
    ensures
        is_intact(descriptor) ==> {
            let l = acl::parsed(descriptor);
            &&& l is Some
            &&& l->Some_0.protected
            &&& l->Some_0.entries.len() == 3
            &&& l->Some_0.entries.contains(
                AceView { kind: "A"@, flags: "OICI"@, mask: 0x1f01ff, trustee: "SY"@ },
            )
            &&& l->Some_0.entries.contains(
                AceView { kind: "A"@, flags: "OICI"@, mask: 0x1f01ff, trustee: "BA"@ },
            )
            &&& l->Some_0.entries.contains(
                AceView { kind: "A"@, flags: "OICI"@, mask: 0x1200a9, trustee: "BU"@ },
            )
        },
        acl::parsed(descriptor) is None ==> !is_intact(descriptor),
        (acl::parsed(descriptor) matches Some(l) && !l.protected) ==> !is_intact(descriptor),
{
    if is_intact(descriptor) {
        let e = acl::parsed(descriptor)->Some_0.entries;
        let x = expected_list().entries;
        broadcast use vstd::seq_lib::group_to_multiset_ensures;

        e.to_multiset_ensures();
        x.to_multiset_ensures();
        assert(x.contains(x[0]));
        assert(x.contains(x[1]));
        assert(x.contains(x[2]));
        assert(e.to_multiset().count(x[0]) > 0);
        assert(e.to_multiset().count(x[1]) > 0);
        assert(e.to_multiset().count(x[2]) > 0);
    }
}

/// Whom the machine trusts with what it runs: the system and the
/// administrators, by number or by name, in any case.
pub proof fn lemma_whom_the_machine_trusts(owner: Seq<char>, other: Seq<char>)
    ensures
        is_trusted("S-1-5-18"@) && is_trusted("S-1-5-32-544"@) && is_trusted("SY"@) && is_trusted(
            "BA"@,
        ),
        text::lower(owner) == text::lower(other) ==> is_trusted(owner) == is_trusted(other),
        is_trusted(owner) ==> text::lower(owner) == text::lower("S-1-5-18"@) || text::lower(owner)
            == text::lower("S-1-5-32-544"@) || text::lower(owner) == text::lower("SY"@)
            || text::lower(owner) == text::lower("BA"@),
{
}

}
