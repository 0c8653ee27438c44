//! Acquisition: the build-time hint first while it is fresh, the catalog when
//! the hint is stale, missing or fails, and never an unverified download. A
//! URL-sourced dependency is its own requirement and is never refreshed. An
//! embedded dependency is extracted from this installer's own payload and
//! verified against the hash the builder recorded, so a damaged installer
//! fails the same way a damaged download does.

use vstd::prelude::*;
use vstd::string::*;

use crate::lists;
use crate::metadata::{Acquisition, AcquisitionSource, Dependency, InstallCommand};
use crate::plan::target;
use crate::report::documents::Event;
use crate::text;

verus! {

/// Why an installer could not be acquired.
#[derive(Debug, Clone, Copy, PartialEq, Eq)]
pub enum Reason {
    DownloadFailed,
    HashMismatch,
    NoCompatibleVersion,
    Cancelled,
    /// What the catalog itself says, by its own code.
    Other(&'static str),
}

impl Reason {
    /// The stable code of the reason.
    pub open spec fn name(self) -> Seq<char> {
        match self {
            Reason::DownloadFailed => "download_failed"@,
            Reason::HashMismatch => "hash_mismatch"@,
            Reason::NoCompatibleVersion => "no_compatible_version"@,
            Reason::Cancelled => "cancelled"@,
            Reason::Other(code) => code@,
        }
    }

    /// The stable code of the reason.
    pub fn code(self) -> (r: &'static str)
        ensures
            r@ == self.name(),
    {
        match self {
            Reason::DownloadFailed => "download_failed",
            Reason::HashMismatch => "hash_mismatch",
            Reason::NoCompatibleVersion => "no_compatible_version",
            Reason::Cancelled => "cancelled",
            Reason::Other(code) => code,
        }
    }
}

/// An acquisition that failed.
#[derive(Debug, PartialEq, Eq)]
pub struct CatalogError {
    pub reason: Reason,
    pub message: String,
}

impl CatalogError {
    /// A failed acquisition.
    pub fn new(reason: Reason, message: &str) -> (r: CatalogError)
        ensures
            r.reason == reason,
            r.message@ == message@,
    {
        CatalogError { reason, message: text::owned(message) }
    }
}

/// An installer file on disk, verified, with everything needed to run it.
#[derive(Debug, PartialEq, Eq)]
pub struct Acquired {
    pub path: String,
    pub url: String,
    pub sha256: String,
    pub version: String,
    pub installer_type: String,
    pub arguments: Vec<String>,
    pub success_codes: Vec<i32>,
    pub reboot_codes: Vec<i32>,
    pub elevation_required: bool,
    /// The metadata came from a catalog refresh, not from the hint.
    pub refreshed: bool,
}

/// What an [`Acquired`] says.
#[verifier::ext_equal]
pub struct AcquiredView {
    pub path: Seq<char>,
    pub url: Seq<char>,
    pub sha256: Seq<char>,
    pub version: Seq<char>,
    pub installer_type: Seq<char>,
    pub arguments: Seq<Seq<char>>,
    pub success_codes: Seq<i32>,
    pub reboot_codes: Seq<i32>,
    pub elevation_required: bool,
    pub refreshed: bool,
}

impl View for Acquired {
    type V = AcquiredView;

    open spec fn view(&self) -> AcquiredView {
        AcquiredView {
            path: self.path@,
            url: self.url@,
            sha256: self.sha256@,
            version: self.version@,
            installer_type: self.installer_type@,
            arguments: text::views(self.arguments@),
            success_codes: self.success_codes@,
            reboot_codes: self.reboot_codes@,
            elevation_required: self.elevation_required,
            refreshed: self.refreshed,
        }
    }
}

/// How long a hint is good for, in seconds.
pub open spec fn lifetime(acquisition: Acquisition) -> int {
    acquisition.max_age_days * 86_400
}

/// Whether a WinGet hint is young enough to be used without asking the
/// catalog: one that never ages is, and one of unknown age is not.
pub open spec fn is_fresh(acquisition: Acquisition, now: i64) -> bool {
    acquisition.max_age_days == 0 || (acquisition.resolved_at > 0 && now
        - acquisition.resolved_at <= lifetime(acquisition))
}

/// Whether a WinGet hint is young enough to be used without asking the
/// catalog. `max_age_days == 0` means never refresh.
pub fn hint_is_fresh(acquisition: &Acquisition, now: i64) -> (r: bool)
    ensures
        r == is_fresh(*acquisition, now),
{
    if acquisition.max_age_days == 0 {
        return true;
    }
    if acquisition.resolved_at <= 0 {
        return false;
    }
    let age = now as i128 - acquisition.resolved_at as i128;
    age <= acquisition.max_age_days as i128 * 86_400
}

/// Whether an installer is one Windows Installer runs.
pub open spec fn is_msi(installer_type: Seq<char>) -> bool {
    text::lower(installer_type) == "msi"@ || text::lower(installer_type) == "wix"@
}

/// Whether an installer is one Windows Installer runs.
pub fn is_msi_type(installer_type: &str) -> (r: bool)
    ensures
        r == is_msi(installer_type@),
{
    let kind = text::lower_of(installer_type);
    text::same(kind.as_str(), "msi") || text::same(kind.as_str(), "wix")
}

/// Whether a character ends the path of a URL.
pub open spec fn ends_path(c: char) -> bool {
    c == '?' || c == '#'
}

/// What a text holds in front of the first character that ends a path.
pub open spec fn path_part(s: Seq<char>) -> Seq<char>
    decreases s.len(),
{
    if s.len() == 0 || ends_path(s[0]) {
        Seq::empty()
    } else {
        seq![s[0]] + path_part(s.skip(1))
    }
}

/// What stands behind the scheme of a URL.
pub open spec fn behind_scheme(url: Seq<char>) -> Option<Seq<char>> {
    if "https://"@.is_prefix_of(text::lower(url)) {
        Some(url.skip("https://"@.len() as int))
    } else if "http://"@.is_prefix_of(text::lower(url)) {
        Some(url.skip("http://"@.len() as int))
    } else {
        None
    }
}

/// The last segment of the path of a URL; empty for what is no URL.
pub open spec fn url_name(url: Seq<char>) -> Seq<char> {
    match behind_scheme(url) {
        None => Seq::empty(),
        Some(rest) => {
            let parts = text::split(path_part(rest), '/');
            if parts.len() < 2 || parts[0].len() == 0 {
                Seq::empty()
            } else {
                parts.last()
            }
        },
    }
}

fn path_part_of(v: &Vec<char>, at: usize) -> (r: String)
    requires
        at <= v@.len(),
    ensures
        r@ == path_part(v@.skip(at as int)),
{
    let mut end: usize = at;
    assert(v@.subrange(at as int, end as int) + path_part(v@.skip(end as int)) =~= path_part(
        v@.skip(at as int),
    ));
    while end < v.len() && v[end] != '?' && v[end] != '#'
        invariant
            at <= end <= v@.len(),
            v@.subrange(at as int, end as int) + path_part(v@.skip(end as int)) == path_part(
                v@.skip(at as int),
            ),
        decreases v@.len() - end,
    {
        proof {
            let rest = v@.skip(end as int);
            assert(rest.skip(1) =~= v@.skip(end + 1));
            assert(v@.subrange(at as int, end + 1) + path_part(v@.skip(end + 1)) =~= v@.subrange(
                at as int,
                end as int,
            ) + (seq![rest[0]] + path_part(rest.skip(1))));
        }
        end = end + 1;
    }
    let part = text::slice_of(v, at, end);
    assert(part@ =~= v@.subrange(at as int, end as int));
    assert(part@ + Seq::<char>::empty() =~= part@);
    text::string_of(&part)
}

fn url_name_of(url: &str) -> (r: String)
    ensures
        r@ == url_name(url@),
{
    proof {
        reveal_strlit("https://");
        reveal_strlit("http://");
        reveal_strlit("");
    }
    let folded = text::lower_of(url);
    let v = text::chars_of(url);
    let at: usize = if text::starts_with(folded.as_str(), "https://") {
        8
    } else if text::starts_with(folded.as_str(), "http://") {
        7
    } else {
        return text::owned("");
    };
    let path = path_part_of(&v, at);
    let parts = text::split_of(path.as_str(), '/');
    let n = parts.len();
    proof {
        let all = text::split(path@, '/');
        text::lemma_split_nonempty(path@, '/');
        assert(all[0] == parts@[0]@);
        assert(all.last() == parts@[parts@.len() - 1]@);
    }
    if n < 2 || parts[0].as_str().is_empty() {
        return text::owned("");
    }
    parts[n - 1].clone()
}

/// Whether a character may stand in a file name taken from a URL.
pub open spec fn is_plain(c: char) -> bool {
    is_letter_or_digit(c) || c == '.' || c == '-' || c == '_'
}

/// Whether a character is a letter or a digit of ASCII.
pub open spec fn is_letter_or_digit(c: char) -> bool {
    'a' <= c <= 'z' || 'A' <= c <= 'Z' || '0' <= c <= '9'
}

/// Whether a file name taken from a URL is used: a plain name with an
/// extension, not longer than 128 characters.
pub open spec fn is_safe(name: Seq<char>) -> bool {
    (forall|i: int| 0 <= i < name.len() ==> is_plain(#[trigger] name[i])) && name.contains('.')
        && name.len() <= 128
}

/// A dependency's id as a file name: what is no letter and no digit becomes a
/// hyphen.
pub open spec fn stem(id: Seq<char>) -> Seq<char> {
    id.map_values(
        |c: char|
            if is_letter_or_digit(c) {
                c
            } else {
                '-'
            },
    )
}

/// The file name of a download: the URL's last segment when it is a plain
/// name, else the dependency's id.
pub open spec fn download_name(url: Seq<char>, id: Seq<char>, installer_type: Seq<char>) -> Seq<
    char,
> {
    if is_safe(url_name(url)) {
        url_name(url)
    } else {
        stem(id) + if is_msi(installer_type) {
            ".msi"@
        } else {
            ".exe"@
        }
    }
}

fn letter_or_digit(c: char) -> (r: bool)
    ensures
        r == is_letter_or_digit(c),
{
    ('a' <= c && c <= 'z') || ('A' <= c && c <= 'Z') || ('0' <= c && c <= '9')
}

fn safe(name: &str) -> (r: bool)
    ensures
        r == is_safe(name@),
{
    let v = text::chars_of(name);
    if v.len() > 128 {
        return false;
    }
    let mut dot = false;
    let mut i: usize = 0;
    while i < v.len()
        invariant
            i <= v@.len(),
            v@ == name@,
            forall|j: int| 0 <= j < i ==> is_plain(#[trigger] v@[j]),
            dot <==> exists|j: int| 0 <= j < i && #[trigger] v@[j] == '.',
        decreases v@.len() - i,
    {
        if !(letter_or_digit(v[i]) || v[i] == '.' || v[i] == '-' || v[i] == '_') {
            assert(!is_plain(name@[i as int]));
            return false;
        }
        if v[i] == '.' {
            dot = true;
        }
        i = i + 1;
    }
    dot
}

fn stem_of(id: &str) -> (r: String)
    ensures
        r@ == stem(id@),
{
    let v = text::chars_of(id);
    let mut out: Vec<char> = Vec::new();
    let mut i: usize = 0;
    while i < v.len()
        invariant
            i <= v@.len(),
            v@ == id@,
            out@ == stem(id@).take(i as int),
        decreases v@.len() - i,
    {
        let c = if letter_or_digit(v[i]) {
            v[i]
        } else {
            '-'
        };
        out.push(c);
        assert(out@ =~= stem(id@).take(i + 1));
        i = i + 1;
    }
    assert(out@ =~= stem(id@));
    text::string_of(&out)
}

/// A file name for the download: the URL's last segment when it is a plain
/// name, else the dependency id.
pub fn file_name_for(url: &str, dependency_id: &str, installer_type: &str) -> (r: String)
    ensures
        r@ == download_name(url@, dependency_id@, installer_type@),
{
    let from_url = url_name_of(url);
    if safe(from_url.as_str()) {
        return from_url;
    }
    let stem = stem_of(dependency_id);
    if is_msi_type(installer_type) {
        text::cat2(stem.as_str(), ".msi")
    } else {
        text::cat2(stem.as_str(), ".exe")
    }
}

/// What follows the last `/` of a payload entry.
pub open spec fn entry_name(entry: Seq<char>) -> Seq<char> {
    text::split(entry, '/').last()
}

/// Where an embedded installer is extracted to: under its own name, or under
/// the dependency's where its entry has none.
pub open spec fn extracted_to(d: Dependency, deps_dir: Seq<char>) -> Seq<char> {
    let a = d.acquisition;
    let name = entry_name(a.entry@);
    target::joined(
        deps_dir,
        if name.len() > 0 {
            name
        } else {
            download_name(""@, d.id@, a.installer_type@)
        },
    )
}

/// The progress a download reports: one mark per two percent of a known
/// length, else per 4 MiB.
pub open spec fn mark(done: u64, total: u64) -> int {
    if total == 0 {
        done as int / 4_194_304
    } else {
        done as int * 50 / (total as int)
    }
}

/// Whether a download reports where it is: at the start, at the end and at
/// every new mark.
pub fn announces(last: Option<u128>, done: u64, total: u64) -> (r: (bool, u128))
    ensures
        r.1 == mark(done, total),
        r.0 == !(last == Some(r.1) && done != 0 && done != total),
{
    let mark = if total == 0 {
        done as u128 / 4_194_304
    } else {
        done as u128 * 50 / total as u128
    };
    let same = match last {
        Some(last) => last == mark,
        None => false,
    };
    (!(same && done != 0 && done != total), mark)
}

/// What the catalog resolved a requirement to.
#[derive(Debug)]
pub struct Resolved {
    pub version: String,
    pub installer_type: String,
    /// The scope the installer is for, as the log shows it.
    pub scope: String,
    pub url: String,
    pub sha256: String,
    pub elevation_required: bool,
    pub arguments: Vec<String>,
    pub success_codes: Vec<i32>,
    pub reboot_codes: Vec<i32>,
}

/// Where an acquisition is.
#[derive(Debug)]
pub enum Stage {
    /// The payload entry is to be extracted to this path and hashed.
    Extract { path: String },
    /// The hinted installer is to be downloaded from this URL to this path and
    /// verified against this hash; the catalog is asked where that fails,
    /// unless the hint is the requirement itself.
    Hint { path: String, url: String, sha256: String, or_catalog: bool },
    /// The catalog is to be asked for this package and architecture.
    Resolve { package: String, architecture: String },
    /// What the catalog resolved is to be downloaded from its URL to this path
    /// and verified against its hash.
    Fetch { path: String, resolved: Resolved },
    Done(Acquired),
    Failed(CatalogError),
}

/// What happened at a stage.
#[derive(Debug)]
pub enum Happened {
    /// The payload entry was extracted: its hash.
    Extracted(Result<String, CatalogError>),
    /// The file was downloaded: the hash of what came.
    Downloaded(Result<String, CatalogError>),
    Resolved(Result<Resolved, CatalogError>),
}

/// Whether a dependency carries a hint.
pub open spec fn has_hint(d: Dependency) -> bool {
    d.acquisition.url@.len() > 0 && d.acquisition.sha256@.len() > 0
}

/// Where the hinted installer is downloaded to.
pub open spec fn hinted_at(d: Dependency, deps_dir: Seq<char>) -> Seq<char> {
    target::joined(
        deps_dir,
        download_name(d.acquisition.url@, d.id@, d.acquisition.installer_type@),
    )
}

/// Whether a stage downloads the hinted installer: the hint's URL is asked
/// for, and what comes is held to the hint's hash.
pub open spec fn fetches_hint(
    stage: Stage,
    d: Dependency,
    deps_dir: Seq<char>,
    catalog_follows: bool,
) -> bool {
    stage matches Stage::Hint { path, url, sha256, or_catalog } && path@ == hinted_at(d, deps_dir)
        && url@ == d.acquisition.url@ && sha256@ == d.acquisition.sha256@ && or_catalog
        == catalog_follows
}

/// Whether a stage asks the catalog for a dependency.
pub open spec fn asks_catalog(stage: Stage, d: Dependency) -> bool {
    stage matches Stage::Resolve { package, architecture } && package@ == (if d.acquisition.package_identifier@.len()
        == 0 {
        d.id@
    } else {
        d.acquisition.package_identifier@
    }) && architecture@ == (if d.acquisition.architecture@.len() == 0 {
        "x64"@
    } else {
        d.acquisition.architecture@
    })
}

/// Whether a stage is a failure for a reason, in these words.
pub open spec fn fails(stage: Stage, reason: Reason, message: Seq<char>) -> bool {
    stage matches Stage::Failed(e) && e.reason == reason && e.message@ == message
}

/// Whether a stage is where the acquisition of a dependency starts.
pub open spec fn begins(
    stage: Stage,
    d: Dependency,
    deps_dir: Seq<char>,
    has_payload: bool,
    now: i64,
) -> bool {
    match d.acquisition.source {
        AcquisitionSource::Embedded => if has_payload {
            stage matches Stage::Extract { path } && path@ == extracted_to(d, deps_dir)
        } else {
            fails(
                stage,
                Reason::DownloadFailed,
                "this executable carries no payload for the embedded installer"@,
            )
        },
        AcquisitionSource::Url => if has_hint(d) {
            fetches_hint(stage, d, deps_dir, false)
        } else {
            fails(
                stage,
                Reason::NoCompatibleVersion,
                "the dependency declares a URL acquisition without a URL and hash"@,
            )
        },
        AcquisitionSource::Winget => if has_hint(d) && is_fresh(d.acquisition, now) {
            fetches_hint(stage, d, deps_dir, true)
        } else {
            asks_catalog(stage, d)
        },
        AcquisitionSource::Unspecified => fails(
            stage,
            Reason::NoCompatibleVersion,
            "the dependency declares no acquisition source"@,
        ),
    }
}

/// What the log says when an acquisition goes to the catalog at once.
pub open spec fn begin_told(d: Dependency, now: i64, events: Seq<Event>) -> bool {
    if d.acquisition.source == AcquisitionSource::Winget && !(has_hint(d) && is_fresh(
        d.acquisition,
        now,
    )) {
        &&& events.len() == 1
        &&& events[0].progress is None
        &&& if has_hint(d) {
            events[0].code@ == "dependency_hint_stale"@ && events[0].message@ == d.id@
                + ": hint resolved at "@ + text::signed_decimal(d.acquisition.resolved_at as int)
                + " is older than "@ + text::decimal(d.acquisition.max_age_days as nat)
                + " days; refreshing from the catalog"@
        } else {
            events[0].code@ == "dependency_hint_missing"@ && events[0].message@ == d.id@
                + ": no acquisition hint; resolving from the catalog"@
        }
    } else {
        events.len() == 0
    }
}

fn ask_catalog(d: &Dependency) -> (r: Stage)
    ensures
        asks_catalog(r, *d),
{
    let a = &d.acquisition;
    let package = if a.package_identifier.as_str().is_empty() {
        d.id.clone()
    } else {
        a.package_identifier.clone()
    };
    let architecture = if a.architecture.as_str().is_empty() {
        text::owned("x64")
    } else {
        a.architecture.clone()
    };
    Stage::Resolve { package, architecture }
}

fn one_event(code: &'static str, message: String) -> (r: Vec<Event>)
    ensures
        r@.len() == 1,
        r@[0].code == code,
        r@[0].message == message,
        r@[0].progress is None,
{
    let mut v: Vec<Event> = Vec::new();
    v.push(Event { code, message, progress: None });
    v
}

fn fetch_hint(d: &Dependency, deps_dir: &str, or_catalog: bool) -> (r: Stage)
    ensures
        fetches_hint(r, *d, deps_dir@, or_catalog),
{
    let name = file_name_for(
        d.acquisition.url.as_str(),
        d.id.as_str(),
        d.acquisition.installer_type.as_str(),
    );
    Stage::Hint {
        path: target::join(deps_dir, name.as_str()),
        url: d.acquisition.url.clone(),
        sha256: d.acquisition.sha256.clone(),
        or_catalog,
    }
}

fn extract_path(d: &Dependency, deps_dir: &str) -> (r: String)
    ensures
        r@ == extracted_to(*d, deps_dir@),
{
    let parts = text::split_of(d.acquisition.entry.as_str(), '/');
    let n = parts.len();
    proof {
        let all = text::split(d.acquisition.entry@, '/');
        text::lemma_split_nonempty(d.acquisition.entry@, '/');
        assert(all.last() == parts@[parts@.len() - 1]@);
    }
    let name = if parts[n - 1].as_str().is_empty() {
        file_name_for("", d.id.as_str(), d.acquisition.installer_type.as_str())
    } else {
        parts[n - 1].clone()
    };
    target::join(deps_dir, name.as_str())
}

/// Where the acquisition of a dependency into `deps_dir` starts, and what the
/// log says of it.
pub fn acquire(d: &Dependency, deps_dir: &str, has_payload: bool, now: i64) -> (r: (
    Stage,
    Vec<Event>,
))
    ensures
        begins(r.0, *d, deps_dir@, has_payload, now),
        begin_told(*d, now, r.1@),
{
    let a = &d.acquisition;
    let hinted = !a.url.as_str().is_empty() && !a.sha256.as_str().is_empty();
    match a.source {
        AcquisitionSource::Embedded => {
            let stage = if has_payload {
                Stage::Extract { path: extract_path(d, deps_dir) }
            } else {
                Stage::Failed(
                    CatalogError::new(
                        Reason::DownloadFailed,
                        "this executable carries no payload for the embedded installer",
                    ),
                )
            };
            (stage, Vec::new())
        },
        AcquisitionSource::Url => {
            let stage = if hinted {
                fetch_hint(d, deps_dir, false)
            } else {
                Stage::Failed(
                    CatalogError::new(
                        Reason::NoCompatibleVersion,
                        "the dependency declares a URL acquisition without a URL and hash",
                    ),
                )
            };
            (stage, Vec::new())
        },
        AcquisitionSource::Winget => {
            if hinted && hint_is_fresh(a, now) {
                return (fetch_hint(d, deps_dir, true), Vec::new());
            }
            let events = if hinted {
                let at = text::signed_decimal_of(a.resolved_at);
                let days = text::decimal_of(a.max_age_days as u64);
                let message = text::cat6(
                    d.id.as_str(),
                    ": hint resolved at ",
                    at.as_str(),
                    " is older than ",
                    days.as_str(),
                    " days; refreshing from the catalog",
                );
                one_event("dependency_hint_stale", message)
            } else {
                let message = text::cat2(
                    d.id.as_str(),
                    ": no acquisition hint; resolving from the catalog",
                );
                one_event("dependency_hint_missing", message)
            };
            (ask_catalog(d), events)
        },
        AcquisitionSource::Unspecified => {
            let error = CatalogError::new(
                Reason::NoCompatibleVersion,
                "the dependency declares no acquisition source",
            );
            (Stage::Failed(error), Vec::new())
        },
    }
}

/// The installer a hint leads to.
pub open spec fn hinted(d: Dependency, path: Seq<char>, url: Seq<char>, sha256: Seq<char>) -> AcquiredView {
    AcquiredView {
        path,
        url,
        sha256,
        version: d.acquisition.version@,
        installer_type: d.acquisition.installer_type@,
        arguments: text::views(d.install.arguments@),
        success_codes: d.install.success_codes@,
        reboot_codes: d.install.reboot_codes@,
        elevation_required: d.elevation_required,
        refreshed: false,
    }
}

/// The installer the catalog leads to. Switches the package manifest declared
/// outlive a refresh; resolved ones are replaced by the current manifest's.
pub open spec fn refreshed(d: Dependency, path: Seq<char>, found: Resolved, sha256: Seq<char>) -> AcquiredView {
    AcquiredView {
        path,
        url: found.url@,
        sha256,
        version: found.version@,
        installer_type: found.installer_type@,
        arguments: if d.install.declared {
            text::views(d.install.arguments@)
        } else {
            text::views(found.arguments@)
        },
        success_codes: if d.install.declared {
            d.install.success_codes@
        } else {
            found.success_codes@
        },
        reboot_codes: if d.install.declared {
            d.install.reboot_codes@
        } else {
            found.reboot_codes@
        },
        elevation_required: d.elevation_required || found.elevation_required,
        refreshed: true,
    }
}

/// What a damaged installer is refused with.
pub open spec fn damaged(d: Dependency, sha256: Seq<char>) -> Seq<char> {
    "embedded installer "@ + d.acquisition.entry@ + " has SHA-256 "@ + sha256
        + ", the package recorded "@ + d.acquisition.sha256@
}

/// What a download that is not the expected file is refused with.
pub open spec fn corrupt(url: Seq<char>, sha256: Seq<char>, expected: Seq<char>) -> Seq<char> {
    url + " has SHA-256 "@ + sha256 + ", expected "@ + expected
}

/// What a download comes to: its hash where that is the expected one, written
/// alike, else why it is not used.
pub open spec fn verified(
    downloaded: Result<String, CatalogError>,
    url: Seq<char>,
    expected: Seq<char>,
) -> Result<Seq<char>, (Reason, Seq<char>)> {
    match downloaded {
        Ok(sha256) => if sha256@ == expected {
            Ok(sha256@)
        } else {
            Err((Reason::HashMismatch, corrupt(url, sha256@, expected)))
        },
        Err(e) => Err((e.reason, e.message@)),
    }
}

/// Holds a download to the hash it has to have.
pub fn verify_download(
    downloaded: &Result<String, CatalogError>,
    url: &str,
    expected: &str,
) -> (r: Result<String, CatalogError>)
    ensures
        match (r, verified(*downloaded, url@, expected@)) {
            (Ok(a), Ok(b)) => a@ == b,
            (Err(e), Err(why)) => e.reason == why.0 && e.message@ == why.1,
            _ => false,
        },
{
    match downloaded {
        Ok(sha256) => {
            if text::same(sha256.as_str(), expected) {
                Ok(sha256.clone())
            } else {
                let message = text::cat5(
                    url,
                    " has SHA-256 ",
                    sha256.as_str(),
                    ", expected ",
                    expected,
                );
                Err(CatalogError { reason: Reason::HashMismatch, message })
            }
        },
        Err(e) => Err(CatalogError::new(e.reason, e.message.as_str())),
    }
}

/// Whether a stage follows from what happened. A download is used only where
/// its hash is the one the package recorded, or the one the catalog resolved.
pub open spec fn follows(
    stage: Stage,
    happened: Happened,
    d: Dependency,
    deps_dir: Seq<char>,
    next: Stage,
) -> bool {
    match (stage, happened) {
        (Stage::Extract { path }, Happened::Extracted(Ok(sha256))) => if sha256@
            == d.acquisition.sha256@ {
            next matches Stage::Done(a) && a@ == hinted(
                d,
                path@,
                "payload:"@ + d.acquisition.entry@,
                sha256@,
            )
        } else {
            fails(next, Reason::HashMismatch, damaged(d, sha256@))
        },
        (Stage::Extract { .. }, Happened::Extracted(Err(e))) => next == Stage::Failed(e),
        (Stage::Hint { path, or_catalog, .. }, Happened::Downloaded(got)) => match verified(
            got,
            d.acquisition.url@,
            d.acquisition.sha256@,
        ) {
            Ok(sha256) => next matches Stage::Done(a) && a@ == hinted(
                d,
                path@,
                d.acquisition.url@,
                sha256,
            ),
            Err((reason, message)) => if or_catalog && reason != Reason::Cancelled {
                asks_catalog(next, d)
            } else {
                fails(next, reason, message)
            },
        },
        (Stage::Resolve { .. }, Happened::Resolved(Ok(found))) => next matches Stage::Fetch {
            path,
            resolved,
        } && resolved == found && path@ == target::joined(
            deps_dir,
            download_name(found.url@, d.id@, found.installer_type@),
        ),
        (Stage::Resolve { .. }, Happened::Resolved(Err(e))) => next == Stage::Failed(e),
        (Stage::Fetch { path, resolved }, Happened::Downloaded(got)) => match verified(
            got,
            resolved.url@,
            resolved.sha256@,
        ) {
            Ok(sha256) => next matches Stage::Done(a) && a@ == refreshed(
                d,
                path@,
                resolved,
                sha256,
            ),
            Err((reason, message)) => fails(next, reason, message),
        },
        _ => next == stage,
    }
}

fn is_cancelled(reason: &Reason) -> (r: bool)
    ensures
        r == (*reason == Reason::Cancelled),
{
    matches!(reason, Reason::Cancelled)
}

/// Decides what follows from what happened.
pub fn next(stage: Stage, happened: Happened, d: &Dependency, deps_dir: &str) -> (r: Stage)
    ensures
        follows(stage, happened, *d, deps_dir@, r),
{
    match (stage, happened) {
        (Stage::Extract { path }, Happened::Extracted(Ok(sha256))) => {
            if text::same(sha256.as_str(), d.acquisition.sha256.as_str()) {
                let url = text::cat2("payload:", d.acquisition.entry.as_str());
                Stage::Done(from_hint(d, path, url, sha256))
            } else {
                let message = text::cat6(
                    "embedded installer ",
                    d.acquisition.entry.as_str(),
                    " has SHA-256 ",
                    sha256.as_str(),
                    ", the package recorded ",
                    d.acquisition.sha256.as_str(),
                );
                Stage::Failed(CatalogError { reason: Reason::HashMismatch, message })
            }
        },
        (Stage::Extract { .. }, Happened::Extracted(Err(e))) => Stage::Failed(e),
        (Stage::Hint { path, or_catalog, .. }, Happened::Downloaded(got)) => {
            match verify_download(
                &got,
                d.acquisition.url.as_str(),
                d.acquisition.sha256.as_str(),
            ) {
                Ok(sha256) => Stage::Done(from_hint(d, path, d.acquisition.url.clone(), sha256)),
                Err(e) => {
                    if or_catalog && !is_cancelled(&e.reason) {
                        ask_catalog(d)
                    } else {
                        Stage::Failed(e)
                    }
                },
            }
        },
        (Stage::Resolve { .. }, Happened::Resolved(Ok(found))) => {
            let name = file_name_for(
                found.url.as_str(),
                d.id.as_str(),
                found.installer_type.as_str(),
            );
            Stage::Fetch { path: target::join(deps_dir, name.as_str()), resolved: found }
        },
        (Stage::Resolve { .. }, Happened::Resolved(Err(e))) => Stage::Failed(e),
        (Stage::Fetch { path, resolved }, Happened::Downloaded(got)) => {
            match verify_download(&got, resolved.url.as_str(), resolved.sha256.as_str()) {
                Ok(sha256) => Stage::Done(from_catalog(d, path, resolved, sha256)),
                Err(e) => Stage::Failed(e),
            }
        },
        (stage, _) => stage,
    }
}

/// What the log says of a step: a hint that failed and what the catalog came
/// up with.
pub open spec fn step_told(stage: Stage, happened: Happened, d: Dependency, events: Seq<Event>) -> bool {
    match (stage, happened) {
        (Stage::Hint { or_catalog, .. }, Happened::Downloaded(got)) => match verified(
            got,
            d.acquisition.url@,
            d.acquisition.sha256@,
        ) {
            Err((reason, message)) => if or_catalog && reason != Reason::Cancelled {
                &&& events.len() == 1
                &&& events[0].progress is None
                &&& events[0].code@ == "dependency_hint_failed"@
                &&& events[0].message@ == d.id@ + ": "@ + (reason.name() + ": "@ + message)
                    + "; refreshing from the catalog"@
            } else {
                events.len() == 0
            },
            Ok(_) => events.len() == 0,
        },
        (Stage::Resolve { .. }, Happened::Resolved(Ok(found))) => {
            &&& events.len() == 1
            &&& events[0].progress is None
            &&& events[0].code@ == "dependency_refreshed"@
            &&& events[0].message@ == d.id@ + ": catalog version "@ + found.version@ + " type "@
                + found.installer_type@ + (" scope "@ + found.scope@) + (" elevation "@ + (
            if found.elevation_required {
                "true"@
            } else {
                "false"@
            }) + " url "@ + found.url@ + " sha256 "@ + found.sha256@)
        },
        _ => events.len() == 0,
    }
}

/// What the log says of a step.
pub fn told(stage: &Stage, happened: &Happened, d: &Dependency) -> (r: Vec<Event>)
    ensures
        step_told(*stage, *happened, *d, r@),
{
    match (stage, happened) {
        (Stage::Hint { or_catalog, .. }, Happened::Downloaded(got)) => {
            match verify_download(
                got,
                d.acquisition.url.as_str(),
                d.acquisition.sha256.as_str(),
            ) {
                Err(e) => {
                    if *or_catalog && !is_cancelled(&e.reason) {
                        let why = text::cat3(e.reason.code(), ": ", e.message.as_str());
                        let message = text::cat4(
                            d.id.as_str(),
                            ": ",
                            why.as_str(),
                            "; refreshing from the catalog",
                        );
                        one_event("dependency_hint_failed", message)
                    } else {
                        Vec::new()
                    }
                },
                Ok(_) => Vec::new(),
            }
        },
        (Stage::Resolve { .. }, Happened::Resolved(Ok(found))) => {
            let elevation = if found.elevation_required {
                "true"
            } else {
                "false"
            };
            let head = text::cat5(
                d.id.as_str(),
                ": catalog version ",
                found.version.as_str(),
                " type ",
                found.installer_type.as_str(),
            );
            let tail = text::cat6(
                " elevation ",
                elevation,
                " url ",
                found.url.as_str(),
                " sha256 ",
                found.sha256.as_str(),
            );
            let scope = text::cat2(" scope ", found.scope.as_str());
            one_event(
                "dependency_refreshed",
                text::cat3(head.as_str(), scope.as_str(), tail.as_str()),
            )
        },
        _ => Vec::new(),
    }
}

fn from_hint(d: &Dependency, path: String, url: String, sha256: String) -> (r: Acquired)
    ensures
        r@ == hinted(*d, path@, url@, sha256@),
{
    Acquired {
        path,
        url,
        sha256,
        version: d.acquisition.version.clone(),
        installer_type: d.acquisition.installer_type.clone(),
        arguments: text::copy_list(&d.install.arguments),
        success_codes: lists::copy_codes(&d.install.success_codes),
        reboot_codes: lists::copy_codes(&d.install.reboot_codes),
        elevation_required: d.elevation_required,
        refreshed: false,
    }
}

fn from_catalog(d: &Dependency, path: String, found: Resolved, sha256: String) -> (r: Acquired)
    ensures
        r@ == refreshed(*d, path@, found, sha256@),
{
    let (arguments, success_codes, reboot_codes) = if d.install.declared {
        (
            text::copy_list(&d.install.arguments),
            lists::copy_codes(&d.install.success_codes),
            lists::copy_codes(&d.install.reboot_codes),
        )
    } else {
        (found.arguments, found.success_codes, found.reboot_codes)
    };
    Acquired {
        path,
        url: found.url,
        sha256,
        version: found.version,
        installer_type: found.installer_type,
        arguments,
        success_codes,
        reboot_codes,
        elevation_required: d.elevation_required || found.elevation_required,
        refreshed: true,
    }
}

/// The stages of one acquisition, from where it starts through what happened
/// at each.
pub open spec fn is_run(
    stages: Seq<Stage>,
    happened: Seq<Happened>,
    d: Dependency,
    deps_dir: Seq<char>,
    has_payload: bool,
    now: i64,
) -> bool {
    &&& stages.len() == happened.len() + 1
    &&& begins(stages[0], d, deps_dir, has_payload, now)
    &&& forall|k: int|
        0 <= k < happened.len() ==> follows(
            stages[k],
            #[trigger] happened[k],
            d,
            deps_dir,
            stages[k + 1],
        )
}

/// Whether a stage downloads what the catalog resolved to a hash.
pub open spec fn resolved_to(stage: Stage, sha256: Seq<char>) -> bool {
    stage matches Stage::Fetch { resolved, .. } && resolved.sha256@ == sha256
}

/// Whether an installer is the one the package recorded.
pub open spec fn is_recorded(a: Acquired, d: Dependency) -> bool {
    &&& !a.refreshed
    &&& a.sha256@ == d.acquisition.sha256@
    &&& a.version@ == d.acquisition.version@
}

/// Whether an installer is the one the catalog resolved in a run: only a
/// catalog dependency has one, and switches its package declared outlive the
/// refresh.
pub open spec fn is_resolved(a: Acquired, d: Dependency, stages: Seq<Stage>) -> bool {
    &&& a.refreshed
    &&& d.acquisition.source == AcquisitionSource::Winget
    &&& exists|j: int| 0 <= j < stages.len() && resolved_to(#[trigger] stages[j], a.sha256@)
    &&& d.install.declared ==> {
        &&& text::views(a.arguments@) == text::views(d.install.arguments@)
        &&& a.success_codes@ == d.install.success_codes@
        &&& a.reboot_codes@ == d.install.reboot_codes@
    }
}

/// What holds of every stage a run reaches.
spec fn keeps_faith(stage: Stage, d: Dependency, stages: Seq<Stage>) -> bool {
    match stage {
        Stage::Extract { .. } => d.acquisition.source == AcquisitionSource::Embedded,
        Stage::Hint { or_catalog, .. } => or_catalog ==> d.acquisition.source
            == AcquisitionSource::Winget,
        Stage::Resolve { .. } => d.acquisition.source == AcquisitionSource::Winget,
        Stage::Fetch { .. } => d.acquisition.source == AcquisitionSource::Winget,
        Stage::Done(a) => is_recorded(a, d) || is_resolved(a, d, stages),
        Stage::Failed(_) => true,
    }
}

proof fn lemma_faith_is_kept(
    stages: Seq<Stage>,
    happened: Seq<Happened>,
    d: Dependency,
    deps_dir: Seq<char>,
    has_payload: bool,
    now: i64,
    k: int,
)
    requires
        is_run(stages, happened, d, deps_dir, has_payload, now),
        0 <= k < stages.len(),
    ensures
        keeps_faith(stages[k], d, stages),
    decreases k,
{
    if k > 0 {
        lemma_faith_is_kept(stages, happened, d, deps_dir, has_payload, now, k - 1);
        assert(follows(stages[k - 1], happened[k - 1], d, deps_dir, stages[k]));
        if let Stage::Done(a) = stages[k] {
            if stages[k - 1] is Fetch {
                assert(resolved_to(stages[k - 1], a.sha256@));
            }
        }
    }
}

/// Never an unverified download: an installer is acquired only with the hash
/// the package recorded, or with the one the catalog resolved, whatever the
/// source and whatever happened on the way. A damaged installer fails the same
/// way a damaged download does. Only a catalog dependency is ever refreshed,
/// and switches its package declared outlive the refresh.
pub proof fn lemma_an_acquired_installer_is_verified(
    stages: Seq<Stage>,
    happened: Seq<Happened>,
    d: Dependency,
    deps_dir: Seq<char>,
    has_payload: bool,
    now: i64,
    k: int,
)
    requires
        is_run(stages, happened, d, deps_dir, has_payload, now),
        0 <= k < stages.len(),
        stages[k] is Done,
    ensures
        is_recorded(stages[k]->Done_0, d) || is_resolved(stages[k]->Done_0, d, stages),
{
    lemma_faith_is_kept(stages, happened, d, deps_dir, has_payload, now, k);
}

/// A URL-sourced or an embedded dependency is its own requirement: the catalog
/// is never asked for it, and what is acquired is what the package recorded.
pub proof fn lemma_only_a_catalog_dependency_is_refreshed(
    stages: Seq<Stage>,
    happened: Seq<Happened>,
    d: Dependency,
    deps_dir: Seq<char>,
    has_payload: bool,
    now: i64,
    k: int,
)
    requires
        is_run(stages, happened, d, deps_dir, has_payload, now),
        0 <= k < stages.len(),
        d.acquisition.source != AcquisitionSource::Winget,
    ensures
        !(stages[k] is Resolve),
        !(stages[k] is Fetch),
        stages[k] matches Stage::Done(a) ==> is_recorded(a, d),
{
    lemma_faith_is_kept(stages, happened, d, deps_dir, has_payload, now, k);
}

}
