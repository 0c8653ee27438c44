//! What a run is about: the package, what the client asks for, and where the
//! run's roots are.

use vstd::prelude::*;

use crate::error::{Error, ErrorView};
use crate::identity;
use crate::machine::Machine;
use crate::metadata::{Metadata, Scope};
use crate::plan::target;
use crate::resource::predicate::Options;
use crate::state::journal::{TransactionRow, TxnKind, TxnState};
use crate::text;

verus! {

/// The uninstaller copy the engine keeps beside the state database.
pub const UNINSTALLER_FILE_NAME: &'static str = "uninstall.exe";

/// An opened installer: the running executable, or any installer file.
#[derive(Debug)]
pub struct Package {
    pub metadata: Metadata,
    pub metadata_sha256: String,
    /// The file it was opened from.
    pub path: String,
    /// The scope an uninstaller copy serves; `None` for an installer.
    pub uninstaller_scope: Option<Scope>,
    /// The hash of the licence text, for a package that carries one.
    pub license_sha256: Option<String>,
    /// The oldest Windows build the package supports.
    pub minimum_build: u32,
    /// The version of the engine that built this installer.
    pub tigersetup_version: String,
    /// The hash of the engine executable it was built from.
    pub engine_sha256: String,
    /// The hash of this file's engine block.
    pub engine_block_sha256: String,
}

impl Package {
    pub fn id(&self) -> (r: &str)
        ensures
            r@ == self.metadata.package.id@,
    {
        self.metadata.package.id.as_str()
    }

    pub fn name(&self) -> (r: &str)
        ensures
            r@ == self.metadata.package.name@,
    {
        self.metadata.package.name.as_str()
    }

    pub fn version(&self) -> (r: &str)
        ensures
            r@ == self.metadata.package.version@,
    {
        self.metadata.package.version.as_str()
    }

    /// The hash of the metadata, in hexadecimal.
    pub fn metadata_sha256(&self) -> (r: &str)
        ensures
            r@ == self.metadata_sha256@,
    {
        self.metadata_sha256.as_str()
    }

    /// Whether this executable is the uninstaller copy, which carries no
    /// payload and can therefore only remove, verify and describe.
    pub fn is_uninstaller(&self) -> (r: bool)
        ensures
            r == (self.uninstaller_scope is Some),
    {
        self.uninstaller_scope.is_some()
    }

    /// The scope a run uses when the client names none: the uninstaller's
    /// own, otherwise the package's first declared scope.
    pub fn default_scope(&self) -> (r: Scope)
        ensures
            r == match self.uninstaller_scope {
                Some(scope) => scope,
                None => if self.metadata.install.scopes@.len() > 0 {
                    self.metadata.install.scopes@[0]
                } else {
                    Scope::User
                },
            },
    {
        match self.uninstaller_scope {
            Some(scope) => scope,
            None => {
                if self.metadata.install.scopes.len() > 0 {
                    self.metadata.install.scopes[0]
                } else {
                    Scope::User
                }
            },
        }
    }
}

/// The package an uninstaller copy is: this one, serving one scope and
/// carrying no payload.
pub fn uninstaller_of(package: Package, scope: Scope) -> (r: Package)
    ensures
        r == (Package { uninstaller_scope: Some(scope), ..package }),
{
    let mut copy = package;
    copy.uninstaller_scope = Some(scope);
    copy
}

/// What a client asks for besides the intent.
#[derive(Debug)]
pub struct RunOptions {
    pub scope: Scope,
    /// Overrides the package's default install root (install only).
    pub install_root: Option<String>,
    /// Where the log goes; defaults to `<state directory>\logs\`.
    pub log_path: Option<String>,
    /// The faults a test injects, each as the command line spells it.
    pub faults: Vec<String>,
    /// BCP 47 tag for the engine's human-readable text.
    pub lang: String,
    /// Declared options the client set explicitly, by lower-case name. An
    /// option not named here keeps the installation's recorded value, or the
    /// package default on a first install.
    pub options: Options,
    /// Acquire and install a missing dependency when online; `false` fails
    /// with `dependency_missing` before any product change.
    pub install_dependencies: bool,
    /// The run is unattended: never wait for a person.
    pub quiet: bool,
    /// The person accepted the package's licence text on the wizard's licence
    /// page in this run. Three facts stay apart: the package carries a
    /// licence, a person accepted this text, and the run may proceed
    /// unattended — a quiet run is the third and never the second.
    pub license_accepted: bool,
    /// Set when this process is a temporary copy of an executable that lies
    /// in the state directory it is about to remove: the path it was copied
    /// from.
    pub relaunched_from: Option<String>,
}

impl Default for RunOptions {
    fn default() -> (r: RunOptions)
        ensures
            r.scope == Scope::User,
            r.install_root is None,
            r.log_path is None,
            r.faults@.len() == 0,
            r.lang@ == "en-US"@,
            r.options@ == Map::<Seq<char>, crate::metadata::OptionView>::empty(),
            r.install_dependencies,
            r.quiet,
            !r.license_accepted,
            r.relaunched_from is None,
    {
        RunOptions {
            scope: Scope::User,
            install_root: None,
            log_path: None,
            faults: Vec::new(),
            lang: text::owned("en-US"),
            options: Options::new(),
            install_dependencies: true,
            quiet: true,
            license_accepted: false,
            relaunched_from: None,
        }
    }
}

/// The resolved locations of a run.
#[derive(Debug, PartialEq, Eq)]
pub struct Roots {
    pub state_dir: String,
    pub state_db: String,
    pub install_root: String,
    /// `<state directory>\uninstall.exe`.
    pub uninstaller: String,
}

/// What [`Roots`] say.
#[verifier::ext_equal]
pub struct RootsView {
    pub state_dir: Seq<char>,
    pub state_db: Seq<char>,
    pub install_root: Seq<char>,
    pub uninstaller: Seq<char>,
}

impl View for Roots {
    type V = RootsView;

    open spec fn view(&self) -> RootsView {
        RootsView {
            state_dir: self.state_dir@,
            state_db: self.state_db@,
            install_root: self.install_root@,
            uninstaller: self.uninstaller@,
        }
    }
}

/// The state directory of a product in a scope.
pub open spec fn state_dir(id: Seq<char>, scope: Scope, machine: Machine) -> Result<
    Seq<char>,
    ErrorView,
> {
    identity::template(identity::state_template(scope, id), machine)
}

/// The state database an installation of the package keeps in `scope`,
/// whether or not the package declares that scope: the database is reality,
/// and a package may stop declaring a scope it was once installed in.
pub fn state_db_path(package: &Package, scope: Scope, machine: &Machine) -> (r: Result<
    String,
    Error,
>)
    ensures
        match (r, state_dir(package.metadata.package.id@, scope, *machine)) {
            (Ok(path), Ok(dir)) => path@ == target::joined(dir, "state.db"@),
            (Err(e), Err(s)) => e@ == s,
            _ => false,
        },
{
    let template = identity::state_directory_template(scope, package.id());
    match identity::expand_template(template.as_str(), machine) {
        Ok(dir) => Ok(target::join(dir.as_str(), "state.db")),
        Err(e) => Err(e),
    }
}

/// What a scope the package does not declare is refused with.
pub open spec fn scope_unsupported(package: Package, scope: Scope) -> ErrorView {
    ErrorView {
        code: "scope_unsupported"@,
        message: package.metadata.package.name@ + " does not support "@ + scope.name() + " scope"@,
    }
}

/// What a relative install root is refused with.
pub open spec fn root_invalid(root: Seq<char>) -> ErrorView {
    ErrorView {
        code: "install_root_invalid"@,
        message: root + " is not an absolute path"@,
    }
}

/// What a package without an install root for the scope is refused with.
pub open spec fn no_root() -> ErrorView {
    ErrorView {
        code: "metadata_invalid"@,
        message: "the package declares no install root for this scope"@,
    }
}

/// The template of the install root a package declares for a scope.
pub open spec fn root_template(metadata: Metadata, scope: Scope) -> Seq<char> {
    match scope {
        Scope::User => metadata.install.user_root@,
        Scope::Machine => metadata.install.machine_root@,
    }
}

/// Where a run installs: where the client says, or where the package declares.
pub open spec fn install_root(package: Package, options: RunOptions, machine: Machine) -> Result<
    Seq<char>,
    ErrorView,
> {
    match options.install_root {
        Some(root) => if target::is_absolute(root@) {
            Ok(root@)
        } else {
            Err(root_invalid(root@))
        },
        None => {
            let template = root_template(package.metadata, options.scope);
            if template.len() == 0 {
                Err(no_root())
            } else {
                identity::template(template, machine)
            }
        },
    }
}

/// The locations of a run.
pub open spec fn resolved(package: Package, options: RunOptions, machine: Machine) -> Result<
    RootsView,
    ErrorView,
> {
    if !package.metadata.install.scopes@.contains(options.scope) {
        Err(scope_unsupported(package, options.scope))
    } else {
        match state_dir(package.metadata.package.id@, options.scope, machine) {
            Err(e) => Err(e),
            Ok(dir) => match install_root(package, options, machine) {
                Err(e) => Err(e),
                Ok(root) => Ok(
                    RootsView {
                        state_dir: dir,
                        state_db: target::joined(dir, "state.db"@),
                        install_root: root,
                        uninstaller: target::joined(dir, "uninstall.exe"@),
                    },
                ),
            },
        }
    }
}

fn declares(scopes: &Vec<Scope>, scope: Scope) -> (r: bool)
    ensures
        r == scopes@.contains(scope),
{
    let mut i: usize = 0;
    while i < scopes.len()
        invariant
            i <= scopes@.len(),
            forall|j: int| 0 <= j < i ==> scopes@[j] != scope,
        decreases scopes@.len() - i,
    {
        if scopes[i] == scope {
            return true;
        }
        i = i + 1;
    }
    false
}

/// Resolves the state directory and install root for the package and scope,
/// expanding the machine's known folders.
pub fn resolve_roots(package: &Package, options: &RunOptions, machine: &Machine) -> (r: Result<
    Roots,
    Error,
>)
    ensures
        match (r, resolved(*package, *options, *machine)) {
            (Ok(roots), Ok(s)) => roots@ == s,
            (Err(e), Err(s)) => e@ == s,
            _ => false,
        },
{
    if !declares(&package.metadata.install.scopes, options.scope) {
        let message = text::cat4(
            package.name(),
            " does not support ",
            options.scope.as_str(),
            " scope",
        );
        return Err(Error::new("scope_unsupported", message.as_str()));
    }
    let template = identity::state_directory_template(options.scope, package.id());
    let dir = match identity::expand_template(template.as_str(), machine) {
        Ok(dir) => dir,
        Err(e) => {
            return Err(e);
        },
    };
    let root = match &options.install_root {
        Some(root) => {
            if !target::is_absolute_path(root.as_str()) {
                let message = text::cat2(root.as_str(), " is not an absolute path");
                return Err(Error::new("install_root_invalid", message.as_str()));
            }
            root.clone()
        },
        None => {
            let template = match options.scope {
                Scope::User => package.metadata.install.user_root.as_str(),
                Scope::Machine => package.metadata.install.machine_root.as_str(),
            };
            if template.is_empty() {
                return Err(
                    Error::new(
                        "metadata_invalid",
                        "the package declares no install root for this scope",
                    ),
                );
            }
            match identity::expand_template(template, machine) {
                Ok(root) => root,
                Err(e) => {
                    return Err(e);
                },
            }
        },
    };
    Ok(
        Roots {
            state_db: target::join(dir.as_str(), "state.db"),
            uninstaller: target::join(dir.as_str(), "uninstall.exe"),
            state_dir: dir,
            install_root: root,
        },
    )
}

/// What a machine too old for the package is refused with.
pub open spec fn too_old(package: Package, build: u32) -> ErrorView {
    ErrorView {
        code: "platform_unsupported"@,
        message: package.metadata.package.name@ + " "@ + package.metadata.package.version@
            + " needs Windows build "@ + text::decimal(package.minimum_build as nat)
            + " or later; this machine runs build "@ + text::decimal(build as nat),
    }
}

/// Refuses a machine older than the package supports, before the run looks at
/// anything else. A Windows that will not answer for its own build is not
/// evidence of an old one, so it is allowed to proceed.
pub fn check_platform(package: &Package, build: Option<u32>) -> (r: Result<(), Error>)
    ensures
        match build {
            Some(build) => if build < package.minimum_build {
                r matches Err(e) && e@ == too_old(*package, build)
            } else {
                r is Ok
            },
            None => r is Ok,
        },
{
    match build {
        Some(build) => {
            if build < package.minimum_build {
                let minimum = text::decimal_of(package.minimum_build as u64);
                let found = text::decimal_of(build as u64);
                let head = text::cat4(
                    package.name(),
                    " ",
                    package.version(),
                    " needs Windows build ",
                );
                let message = text::cat4(
                    head.as_str(),
                    minimum.as_str(),
                    " or later; this machine runs build ",
                    found.as_str(),
                );
                Err(Error::new("platform_unsupported", message.as_str()))
            } else {
                Ok(())
            }
        },
        None => Ok(()),
    }
}

/// What an uninstaller copy asked for payload bytes is refused with.
pub open spec fn carries_no_payload(package: Package) -> ErrorView {
    ErrorView {
        code: "payload_unavailable"@,
        message: package.path@ + " carries no payload; run the "@ + package.metadata.package.name@
            + " "@ + package.metadata.package.version@ + " installer to install or repair it"@,
    }
}

/// Refuses an intent that needs payload bytes when this executable is the
/// uninstaller copy, naming the installer that has them.
pub fn require_payload(package: &Package) -> (r: Result<(), Error>)
    ensures
        match r {
            Ok(_) => package.uninstaller_scope is None,
            Err(e) => package.uninstaller_scope is Some && e@ == carries_no_payload(*package),
        },
{
    if package.is_uninstaller() {
        let message = text::cat6(
            package.path.as_str(),
            " carries no payload; run the ",
            package.name(),
            " ",
            package.version(),
            " installer to install or repair it",
        );
        return Err(Error::new("payload_unavailable", message.as_str()));
    }
    Ok(())
}

/// The licence acceptance a run records.
pub open spec fn acceptance(package: Package, options: RunOptions) -> Option<Seq<char>> {
    if options.license_accepted && !options.quiet {
        text::option_view(package.license_sha256)
    } else {
        None
    }
}

/// The licence acceptance this run records: the package's licence text, when
/// a person accepted it on the wizard's page. Proceeding unattended is
/// authorization through the automation path, not agreement to the text, so a
/// quiet run yields none whatever its options claim.
pub fn accepted_license(package: &Package, options: &RunOptions) -> (r: Option<String>)
    ensures
        text::option_view(r) == acceptance(*package, *options),
        options.quiet ==> r is None,
{
    if options.license_accepted && !options.quiet {
        package.license_sha256.clone()
    } else {
        None
    }
}

/// A transaction about to run.
pub fn new_transaction(
    package: &Package,
    roots: &Roots,
    options: &RunOptions,
    kind: TxnKind,
    from: Option<&str>,
    id: &str,
    now: &str,
) -> (r: TransactionRow)
    ensures
        r.id@ == id@,
        r.kind == kind,
        text::option_view(r.from_version) == text::option_view(from),
        text::option_view(r.to_version) == if kind == TxnKind::Uninstall {
            None
        } else {
            Some(package.metadata.package.version@)
        },
        r.package_id@ == package.metadata.package.id@,
        r.package_version@ == package.metadata.package.version@,
        r.metadata_sha256@ == package.metadata_sha256@,
        r.scope@ == options.scope.name(),
        r.install_root@ == roots.install_root@,
        r.state == TxnState::Running,
        r.started_at@ == now@,
        r.finished_at is None,
        r.registration_key is None,
        r.accepted_license_sha256 is None,
{
    TransactionRow {
        id: text::owned(id),
        kind,
        from_version: match from {
            Some(v) => Some(text::owned(v)),
            None => None,
        },
        to_version: match kind {
            TxnKind::Uninstall => None,
            _ => Some(text::owned(package.version())),
        },
        package_id: text::owned(package.id()),
        package_version: text::owned(package.version()),
        metadata_sha256: package.metadata_sha256.clone(),
        scope: text::owned(options.scope.as_str()),
        install_root: roots.install_root.clone(),
        state: TxnState::Running,
        started_at: text::owned(now),
        finished_at: None,
        registration_key: None,
        accepted_license_sha256: None,
    }
}

/// `%TEMP%\TigerSetup`.
pub open spec fn temporary(machine: Machine) -> Seq<char> {
    target::joined(
        match machine.folder("TEMP"@) {
            Some(temp) => temp,
            None => "."@,
        },
        "TigerSetup"@,
    )
}

/// `%TEMP%\TigerSetup`, where the self-removing uninstaller lives while it
/// removes the state directory.
pub fn temp_directory(machine: &Machine) -> (r: String)
    ensures
        r@ == temporary(*machine),
{
    let temp = match machine.known_folder("TEMP") {
        Some(temp) => temp,
        None => ".",
    };
    target::join(temp, "TigerSetup")
}

/// A directory to stage an executable this process is about to run: unelevated
/// the temporary directory; elevated a directory of its own under
/// `%SystemRoot%\Temp` that no other user can have prepared.
pub fn staging_directory(elevated: bool, unique: &str, machine: &Machine) -> (r: String)
    ensures
        r@ == if elevated {
            target::joined(
                target::joined(
                    match machine.folder("SYSTEMROOT"@) {
                        Some(root) => root,
                        None => "."@,
                    },
                    "Temp"@,
                ),
                "TigerSetup-"@ + unique@,
            )
        } else {
            temporary(*machine)
        },
{
    if !elevated {
        return temp_directory(machine);
    }
    let root = match machine.known_folder("SYSTEMROOT") {
        Some(root) => root,
        None => ".",
    };
    let temp = target::join(root, "Temp");
    let name = text::cat2("TigerSetup-", unique);
    target::join(temp.as_str(), name.as_str())
}

/// The letters and digits of a text.
pub open spec fn alphanumeric(s: Seq<char>) -> Seq<char>
    decreases s.len(),
{
    if s.len() == 0 {
        s
    } else {
        let before = alphanumeric(s.drop_last());
        let c = s.last();
        if 'a' <= c <= 'z' || 'A' <= c <= 'Z' || '0' <= c <= '9' {
            before.push(c)
        } else {
            before
        }
    }
}

fn letters_and_digits(s: &str) -> (r: String)
    ensures
        r@ == alphanumeric(s@),
{
    let v = text::chars_of(s);
    let mut out = String::new();
    let mut i: usize = 0;
    assert(v@.take(0) =~= Seq::<char>::empty());
    while i < v.len()
        invariant
            i <= v@.len(),
            v@ == s@,
            out@ == alphanumeric(v@.take(i as int)),
        decreases v@.len() - i,
    {
        assert(v@.take(i + 1).drop_last() =~= v@.take(i as int));
        let c = v[i];
        if ('a' <= c && c <= 'z') || ('A' <= c && c <= 'Z') || ('0' <= c && c <= '9') {
            out.push(c);
        }
        i = i + 1;
    }
    assert(v@.take(i as int) =~= v@);
    out
}

/// Where a run of a kind logs by default: under the state directory, or among
/// the temporary files where the state directory may be removed.
pub open spec fn default_log(
    roots: Roots,
    options: RunOptions,
    kind: Seq<char>,
    now: Seq<char>,
    machine: Machine,
) -> Seq<char> {
    target::joined(
        if options.relaunched_from is Some || kind == "uninstall"@ {
            temporary(machine)
        } else {
            target::joined(roots.state_dir@, "logs"@)
        },
        alphanumeric(now) + "-"@ + kind + ".log"@,
    )
}

/// Where a run's log goes when the client names no path: beside the state
/// database, or in the temporary directory for a run that is about to remove
/// that directory.
///
/// An uninstall is the second case whether or not it was relaunched from the
/// state directory, because a committed uninstall removes the directory it
/// would otherwise be logging into.
pub fn default_log_path(
    roots: &Roots,
    options: &RunOptions,
    kind: &str,
    now: &str,
    machine: &Machine,
) -> (r: String)
    ensures
        r@ == default_log(*roots, *options, kind@, now@, *machine),
{
    let stamp = letters_and_digits(now);
    let name = text::cat4(stamp.as_str(), "-", kind, ".log");
    let dir = if options.relaunched_from.is_some() || text::same(kind, "uninstall") {
        temp_directory(machine)
    } else {
        target::join(roots.state_dir.as_str(), "logs")
    };
    target::join(dir.as_str(), name.as_str())
}

}
