//! Add/Remove Programs registration: the values under the scope's
//! `...\CurrentVersion\Uninstall\<key>`, written last so that a registration
//! means "installed" to Windows, all journaled as registry operations.

use vstd::prelude::*;

use crate::error::{Error, ErrorView};
use crate::machine::{Data, DataView, KeyPath, KeyView};
use crate::metadata::Metadata;
use crate::plan::target;
use crate::report::time;
use crate::resource::registry::{DesiredValue, DesiredValueView};
use crate::scope::Locations;
use crate::text;

verus! {

/// The first of two texts that is not empty.
pub open spec fn or_else(declared: Seq<char>, default: Seq<char>) -> Seq<char> {
    if declared.len() == 0 {
        default
    } else {
        declared
    }
}

/// The number the `i`th part of a dotted version spells, or zero.
pub open spec fn version_part(version: Seq<char>, i: int) -> u32 {
    let parts = text::split(version, '.');
    if i < parts.len() {
        match text::spells_u32(parts[i]) {
            Some(n) => n,
            None => 0,
        }
    } else {
        0
    }
}

/// A size in bytes as a number of kilobytes, rounded up, as far as a DWORD
/// holds it.
pub open spec fn kilobytes(bytes: u64) -> u32 {
    let kb = (bytes as int + 1023) / 1024;
    if kb <= u32::MAX {
        kb as u32
    } else {
        u32::MAX
    }
}

/// A value of the registration.
pub open spec fn entry(key: KeyView, name: Seq<char>, data: DataView) -> DesiredValueView {
    DesiredValueView { key, name, data }
}

/// The icon value, where the package declares an icon.
pub open spec fn icon_values(
    metadata: Metadata,
    key: KeyView,
    install_root: Seq<char>,
) -> Result<Seq<DesiredValueView>, ErrorView> {
    if metadata.registration.display_icon@.len() == 0 {
        Ok(Seq::<DesiredValueView>::empty())
    } else {
        match target::placed_at(
            install_root,
            target::relative(metadata.registration.display_icon@),
        ) {
            Err(e) => Err(e),
            Ok(icon) => Ok(seq![entry(key, "DisplayIcon"@, DataView::String(icon))]),
        }
    }
}

/// A link value, where the package declares one.
pub open spec fn link_values(key: KeyView, name: Seq<char>, url: Seq<char>) -> Seq<
    DesiredValueView,
> {
    if url.len() == 0 {
        Seq::<DesiredValueView>::empty()
    } else {
        seq![entry(key, name, DataView::String(url))]
    }
}

/// The values that say what is registered and where.
pub open spec fn head_values(
    metadata: Metadata,
    key: KeyView,
    install_root: Seq<char>,
) -> Seq<DesiredValueView> {
    seq![
        entry(
            key,
            "DisplayName"@,
            DataView::String(
                or_else(metadata.registration.display_name@, metadata.package.name@),
            ),
        ),
        entry(
            key,
            "DisplayVersion"@,
            DataView::String(
                or_else(metadata.registration.display_version@, metadata.package.version@),
            ),
        ),
        entry(key, "Publisher"@, DataView::String(metadata.package.publisher@)),
        entry(
            key,
            "InstallLocation"@,
            DataView::String(text::trim_end(install_root, '\\') + "\\"@),
        ),
    ]
}

/// The values that say how it is removed and what it is.
pub open spec fn tail_values(
    metadata: Metadata,
    key: KeyView,
    uninstaller: Seq<char>,
    install_date: Seq<char>,
) -> Seq<DesiredValueView> {
    seq![
        entry(key, "UninstallString"@, DataView::String("\""@ + uninstaller + "\""@)),
        entry(
            key,
            "QuietUninstallString"@,
            DataView::String("\""@ + uninstaller + "\" uninstall --quiet"@),
        ),
        entry(key, "NoModify"@, DataView::Dword(1)),
        entry(key, "NoRepair"@, DataView::Dword(1)),
        entry(key, "InstallDate"@, DataView::String(install_date)),
        entry(
            key,
            "EstimatedSize"@,
            DataView::Dword(kilobytes(metadata.install.estimated_size)),
        ),
        entry(
            key,
            "VersionMajor"@,
            DataView::Dword(version_part(metadata.package.version@, 0)),
        ),
        entry(
            key,
            "VersionMinor"@,
            DataView::Dword(version_part(metadata.package.version@, 1)),
        ),
    ]
}

/// Every value of the registration, in the order they are written.
pub open spec fn registration_values(
    metadata: Metadata,
    key: KeyView,
    install_root: Seq<char>,
    uninstaller: Seq<char>,
    install_date: Seq<char>,
) -> Result<Seq<DesiredValueView>, ErrorView> {
    match icon_values(metadata, key, install_root) {
        Err(e) => Err(e),
        Ok(icon) => Ok(
            head_values(metadata, key, install_root) + icon + tail_values(
                metadata,
                key,
                uninstaller,
                install_date,
            ) + link_values(key, "URLInfoAbout"@, metadata.package.website_url@) + link_values(
                key,
                "HelpLink"@,
                metadata.package.help_url@,
            ),
        ),
    }
}

fn text_value(key: &KeyPath, name: &str, data: String) -> (r: DesiredValue)
    ensures
        r@ == entry(key@, name@, DataView::String(data@)),
{
    DesiredValue { key: key.clone(), name: text::owned(name), data: Data::String(data) }
}

fn number_value(key: &KeyPath, name: &str, data: u32) -> (r: DesiredValue)
    ensures
        r@ == entry(key@, name@, DataView::Dword(data)),
{
    DesiredValue { key: key.clone(), name: text::owned(name), data: Data::Dword(data) }
}

fn version_part_of(version: &str, i: usize) -> (r: u32)
    ensures
        r == version_part(version@, i as int),
{
    let parts = text::split_of(version, '.');
    let ghost all = text::views(parts@);
    if i < parts.len() {
        assert(all[i as int] == parts@[i as int]@);
        match text::parse_u32(parts[i].as_str()) {
            Some(n) => n,
            None => 0,
        }
    } else {
        0
    }
}

fn kilobytes_of(bytes: u64) -> (r: u32)
    ensures
        r == kilobytes(bytes),
{
    let whole: u64 = bytes / 1024;
    let kb: u64 = if bytes % 1024 == 0 {
        whole
    } else {
        whole + 1
    };
    if kb <= u32::MAX as u64 {
        kb as u32
    } else {
        u32::MAX
    }
}

fn declared_text(declared: &String, default: &String) -> (r: String)
    ensures
        r@ == or_else(declared@, default@),
{
    if declared.as_str().is_empty() {
        default.clone()
    } else {
        declared.clone()
    }
}

/// The registration key and its values for this installation.
pub fn values(
    metadata: &Metadata,
    locations: &Locations,
    install_root: &str,
    uninstaller: &str,
    install_date: &str,
) -> (r: Result<(KeyPath, Vec<DesiredValue>), Error>)
    ensures
        match (
            r,
            registration_values(
                *metadata,
                locations.uninstall_root@.child(metadata.key_name()),
                install_root@,
                uninstaller@,
                install_date@,
            ),
        ) {
            (Ok((key, values)), Ok(b)) => {
                &&& key@ == locations.uninstall_root@.child(metadata.key_name())
                &&& text::views(values@) == b
            },
            (Err(a), Err(b)) => a@ == b,
            _ => false,
        },
{
    let key = locations.registration_key(metadata.registration_key_name());
    let package = &metadata.package;
    let registration = &metadata.registration;
    let mut out: Vec<DesiredValue> = Vec::new();
    out.push(
        text_value(&key, "DisplayName", declared_text(&registration.display_name, &package.name)),
    );
    out.push(
        text_value(
            &key,
            "DisplayVersion",
            declared_text(&registration.display_version, &package.version),
        ),
    );
    out.push(text_value(&key, "Publisher", package.publisher.clone()));
    let trimmed = text::trim_end_of(install_root, '\\');
    out.push(text_value(&key, "InstallLocation", text::cat2(trimmed.as_str(), "\\")));
    assert(text::views(out@) =~= head_values(*metadata, key@, install_root@));
    let ghost mut icons = Seq::<DesiredValueView>::empty();
    if !registration.display_icon.as_str().is_empty() {
        let relative = target::to_relative(registration.display_icon.as_str());
        match target::absolute(install_root, relative.as_str()) {
            Err(e) => return Err(e),
            Ok(icon) => {
                proof {
                    icons = seq![entry(key@, "DisplayIcon"@, DataView::String(icon@))];
                }
                out.push(text_value(&key, "DisplayIcon", icon));
            },
        }
    }
    let ghost before = head_values(*metadata, key@, install_root@) + icons;
    assert(text::views(out@) =~= before);
    let ghost tail = tail_values(*metadata, key@, uninstaller@, install_date@);
    out.push(text_value(&key, "UninstallString", text::cat3("\"", uninstaller, "\"")));
    out.push(
        text_value(
            &key,
            "QuietUninstallString",
            text::cat3("\"", uninstaller, "\" uninstall --quiet"),
        ),
    );
    out.push(number_value(&key, "NoModify", 1));
    out.push(number_value(&key, "NoRepair", 1));
    out.push(text_value(&key, "InstallDate", text::owned(install_date)));
    out.push(number_value(&key, "EstimatedSize", kilobytes_of(metadata.install.estimated_size)));
    out.push(number_value(&key, "VersionMajor", version_part_of(package.version.as_str(), 0)));
    out.push(number_value(&key, "VersionMinor", version_part_of(package.version.as_str(), 1)));
    assert(text::views(out@) =~= before + tail);
    let ghost about = link_values(key@, "URLInfoAbout"@, package.website_url@);
    if !package.website_url.as_str().is_empty() {
        out.push(text_value(&key, "URLInfoAbout", package.website_url.clone()));
    }
    assert(text::views(out@) =~= before + tail + about);
    if !package.help_url.as_str().is_empty() {
        out.push(text_value(&key, "HelpLink", package.help_url.clone()));
    }
    assert(text::views(out@) =~= before + tail + about + link_values(
        key@,
        "HelpLink"@,
        package.help_url@,
    ));
    Ok((key, out))
}

/// Today as `YYYYMMDD` (UTC): the day of the present moment.
pub fn install_date() -> (r: String)
    ensures
        exists|stamp: Seq<char>, seconds: int, millis: int| #[trigger]
            time::is_stamp(stamp, seconds, millis) && r@ == time::digits_of(
                stamp.take(
                    if stamp.len() < 10 {
                        stamp.len() as int
                    } else {
                        10
                    },
                ),
            ),
{
    let stamp = time::now_rfc3339();
    time::day_of(stamp.as_str())
}

}
