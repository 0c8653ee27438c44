//! The typed Windows integrations — file associations, URL protocols, `App
//! Paths` and classic Explorer context-menu verbs — are registry values in
//! the shape Windows documents for each, all under the scope's `Software`
//! root. This module compiles a declaration into the values it means; the
//! planner then reconciles them exactly as it reconciles registry values the
//! package declares, with the same value-level ownership, the same undo
//! records and the same conservative removal. There is no second registry
//! engine here, only the knowledge of which keys and values each integration
//! is.
//!
//! What the shapes are:
//!
//! - **File association** — `Classes\<ProgID>` with its description,
//!   `DefaultIcon` and `shell\open\command`; `Classes\<.ext>\OpenWithProgids\
//!   <ProgID>` for every extension, which lists the application in *Open
//!   with* without changing the user's default; and a capability
//!   registration (`Software\<Publisher>\<Product>\Capabilities` plus
//!   `Software\RegisteredApplications`) so Windows Settings can offer it.
//! - **URL protocol** — a handler ProgID carrying `URL Protocol`, the
//!   capability's `URLAssociations` entry, and the scheme's own class key
//!   *when nothing else owns it*: a scheme another application already
//!   registered is left exactly as it is and reported.
//! - **App Paths** — `Software\Microsoft\Windows\CurrentVersion\App Paths\
//!   <exe>` with the full path and, on request, the directory.
//! - **Context-menu verb** — `Classes\*\shell\<verb>` (or
//!   `SystemFileAssociations\<.ext>\shell\<verb>`), `Classes\Directory\shell\
//!   <verb>` or `Classes\Directory\Background\shell\<verb>`, each with its
//!   label, optional `Icon` and `command`.

use vstd::prelude::*;

use crate::error::{Error, ErrorView};
use crate::lists;
use crate::machine::{Data, DataView, KeyPath, KeyView, Machine};
use crate::metadata::{
    AppPath, ContextMenuTarget, ContextMenuVerb, FileAssociation, Metadata, OptionView, UrlProtocol,
};
use crate::plan::target;
use crate::report;
use crate::report::{Finding, FindingView};
use crate::resource::predicate;
use crate::resource::predicate::Options;
use crate::resource::registration;
use crate::resource::registry::{DesiredValue, DesiredValueView};
use crate::resource::shortcut;
use crate::scope::Locations;
use crate::state::installation::{Owned, OwnedRegistryKey, OwnedRegistryValue};
use crate::text;

verus! {

/// One declared integration and the values it means on this machine.
#[derive(Debug, PartialEq, Eq)]
pub struct Integration {
    /// `file_association`, `url_protocol`, `app_path`, `context_menu` or
    /// `capabilities`.
    pub kind: &'static str,
    /// The ProgID, the scheme, the executable name, `<target>:<verb>` or the
    /// product name.
    pub id: String,
    /// Whether the effective options enable it.
    pub enabled: bool,
    /// The values it consists of, when enabled.
    pub values: Vec<DesiredValue>,
}

/// What an [`Integration`] is.
#[verifier::ext_equal]
pub struct IntegrationView {
    pub kind: Seq<char>,
    pub id: Seq<char>,
    pub enabled: bool,
    pub values: Seq<DesiredValueView>,
}

impl View for Integration {
    type V = IntegrationView;

    open spec fn view(&self) -> IntegrationView {
        IntegrationView {
            kind: self.kind@,
            id: self.id@,
            enabled: self.enabled,
            values: text::views(self.values@),
        }
    }
}

/// Every declared integration compiled against the effective options and
/// the machine, with the findings the compilation raised.
#[derive(Debug, PartialEq, Eq)]
pub struct Integrations {
    pub items: Vec<Integration>,
    pub findings: Vec<Finding>,
}

/// The values of every enabled integration, in declaration order.
pub open spec fn enabled_values(items: Seq<IntegrationView>) -> Seq<DesiredValueView>
    decreases items.len(),
{
    if items.len() == 0 {
        Seq::<DesiredValueView>::empty()
    } else {
        enabled_values(items.drop_last()) + if items.last().enabled {
            items.last().values
        } else {
            Seq::<DesiredValueView>::empty()
        }
    }
}

impl Integrations {
    /// The values of every enabled integration, in declaration order.
    pub fn values(&self) -> (r: Vec<DesiredValue>)
        ensures
            text::views(r@) == enabled_values(text::views(self.items@)),
    {
        let ghost all = text::views(self.items@);
        let mut out: Vec<DesiredValue> = Vec::new();
        let mut i: usize = 0;
        assert(all.take(0) =~= Seq::<IntegrationView>::empty());
        assert(text::views(out@) =~= Seq::<DesiredValueView>::empty());
        while i < self.items.len()
            invariant
                i <= self.items@.len(),
                all == text::views(self.items@),
                text::views(out@) == enabled_values(all.take(i as int)),
            decreases self.items@.len() - i,
        {
            let item = &self.items[i];
            let ghost before = text::views(out@);
            assert(all.take(i + 1).drop_last() =~= all.take(i as int));
            assert(all[i as int] == item@);
            if item.enabled {
                let mut j: usize = 0;
                assert(before + item@.values.take(0) =~= before);
                while j < item.values.len()
                    invariant
                        j <= item.values@.len(),
                        text::views(out@) == before + item@.values.take(j as int),
                    decreases item.values@.len() - j,
                {
                    let value = item.values[j].clone();
                    proof {
                        text::lemma_views_push(out@, value);
                        assert(before + item@.values.take(j + 1) =~= (before + item@.values.take(
                            j as int,
                        )).push(value@));
                    }
                    out.push(value);
                    j = j + 1;
                }
                assert(item@.values.take(j as int) =~= item@.values);
            } else {
                assert(before + Seq::<DesiredValueView>::empty() =~= before);
            }
            i = i + 1;
        }
        assert(all.take(i as int) =~= all);
        out
    }
}

/// `"<exe>" <arguments>`.
pub open spec fn command(executable: Seq<char>, arguments: Seq<char>) -> Seq<char> {
    "\""@ + executable + "\" "@ + arguments
}

/// `"<exe>" <arguments>`: the command a verb or a handler runs.
pub fn command_line(executable: &str, arguments: &str) -> (r: String)
    ensures
        r@ == command(executable@, arguments@),
{
    text::cat4("\"", executable, "\" ", arguments)
}

/// A string value.
pub open spec fn string_value(key: KeyView, name: Seq<char>, data: Seq<char>) -> DesiredValueView {
    DesiredValueView { key, name, data: DataView::String(data) }
}

fn string(key: KeyPath, name: &str, data: &str) -> (r: DesiredValue)
    ensures
        r@ == string_value(key@, name@, data@),
{
    DesiredValue { key, name: text::owned(name), data: Data::String(text::owned(data)) }
}

/// A key component from product text: Windows forbids only the separator,
/// and a product name is never allowed to escape its own key.
pub open spec fn component_form(product_text: Seq<char>) -> Seq<char> {
    text::replaced(product_text, '\\', '-')
}

fn component(product_text: &str) -> (r: String)
    ensures
        r@ == component_form(product_text@),
{
    text::replace_char(product_text, '\\', '-')
}

/// `<Publisher>\<Product>\Capabilities`.
pub open spec fn capabilities_path(metadata: Metadata) -> Seq<char> {
    component_form(metadata.package.publisher@) + "\\"@ + component_form(metadata.package.name@)
        + "\\Capabilities"@
}

fn capabilities_path_of(metadata: &Metadata) -> (r: String)
    ensures
        r@ == capabilities_path(*metadata),
{
    let publisher = component(metadata.package.publisher.as_str());
    let product = component(metadata.package.name.as_str());
    text::cat4(publisher.as_str(), "\\", product.as_str(), "\\Capabilities")
}

/// The capability registration's key for this product.
pub open spec fn capabilities_root(metadata: Metadata, software: KeyView) -> KeyView {
    software.child(capabilities_path(metadata))
}

fn capabilities_key(metadata: &Metadata, locations: &Locations) -> (r: KeyPath)
    ensures
        r@ == capabilities_root(*metadata, locations.software_root@),
{
    let path = capabilities_path_of(metadata);
    locations.software_key(path.as_str())
}

/// The values every capability registration carries once, whichever
/// integration asked for it.
pub open spec fn capabilities(metadata: Metadata, software: KeyView) -> Seq<DesiredValueView> {
    seq![
        string_value(
            capabilities_root(metadata, software),
            "ApplicationName"@,
            metadata.package.name@,
        ),
        string_value(
            capabilities_root(metadata, software),
            "ApplicationDescription"@,
            registration::or_else(metadata.package.description@, metadata.package.name@),
        ),
        string_value(
            software.child("RegisteredApplications"@),
            component_form(metadata.package.name@),
            "Software\\"@ + capabilities_path(metadata),
        ),
    ]
}

fn capability_values(metadata: &Metadata, locations: &Locations) -> (r: Vec<DesiredValue>)
    ensures
        text::views(r@) == capabilities(*metadata, locations.software_root@),
{
    let package = &metadata.package;
    let description = if package.description.as_str().is_empty() {
        package.name.as_str()
    } else {
        package.description.as_str()
    };
    let path = capabilities_path_of(metadata);
    let whole = text::cat2("Software\\", path.as_str());
    let product = component(package.name.as_str());
    let mut out: Vec<DesiredValue> = Vec::new();
    out.push(
        string(capabilities_key(metadata, locations), "ApplicationName", package.name.as_str()),
    );
    out.push(string(capabilities_key(metadata, locations), "ApplicationDescription", description));
    out.push(
        string(
            locations.software_key("RegisteredApplications"),
            product.as_str(),
            whole.as_str(),
        ),
    );
    assert(text::views(out@) =~= capabilities(*metadata, locations.software_root@));
    out
}

fn resolve(install_root: &str, relative: &str) -> (r: Result<String, Error>)
    ensures
        target::agrees(r, target::placed_at(install_root@, target::relative(relative@))),
{
    let path = target::to_relative(relative);
    target::absolute(install_root, path.as_str())
}

fn resolve_icon(install_root: &str, icon: &str, executable: &str) -> (r: Result<String, Error>)
    ensures
        target::agrees(r, shortcut::declared_or(icon@, install_root@, executable@)),
{
    if icon.is_empty() {
        Ok(text::owned(executable))
    } else {
        resolve(install_root, icon)
    }
}

/// The handler class values a ProgID carries: description, icon, command,
/// and `URL Protocol` for a scheme handler.
pub open spec fn handler(
    software: KeyView,
    prog_id: Seq<char>,
    description: Seq<char>,
    icon: Seq<char>,
    command: Seq<char>,
    url_protocol: bool,
) -> Seq<DesiredValueView> {
    let class = software.child("Classes\\"@ + prog_id);
    let described = seq![string_value(class, ""@, description)];
    let marked = if url_protocol {
        seq![string_value(class, "URL Protocol"@, ""@)]
    } else {
        Seq::<DesiredValueView>::empty()
    };
    described + marked + seq![
        string_value(class.child("DefaultIcon"@), ""@, icon + ",0"@),
        string_value(class.child("shell\\open\\command"@), ""@, command),
    ]
}

fn handler_class(
    locations: &Locations,
    prog_id: &str,
    description: &str,
    icon: &str,
    command: &str,
    url_protocol: bool,
) -> (r: Vec<DesiredValue>)
    ensures
        text::views(r@) == handler(
            locations.software_root@,
            prog_id@,
            description@,
            icon@,
            command@,
            url_protocol,
        ),
{
    let path = text::cat2("Classes\\", prog_id);
    let class = locations.software_key(path.as_str());
    let icon_text = text::cat2(icon, ",0");
    let mut out: Vec<DesiredValue> = Vec::new();
    out.push(string(class.clone(), "", description));
    if url_protocol {
        out.push(string(class.clone(), "URL Protocol", ""));
    }
    out.push(string(class.child("DefaultIcon"), "", icon_text.as_str()));
    out.push(string(class.child("shell\\open\\command"), "", command));
    assert(text::views(out@) =~= handler(
        locations.software_root@,
        prog_id@,
        description@,
        icon@,
        command@,
        url_protocol,
    ));
    out
}

/// Appends the values of `more`.
fn extend(out: &mut Vec<DesiredValue>, more: Vec<DesiredValue>)
    ensures
        text::views(final(out)@) == text::views(old(out)@) + text::views(more@),
{
    let ghost a = out@;
    let ghost b = more@;
    let mut more = more;
    out.append(&mut more);
    proof {
        text::lemma_views_concat(a, b);
    }
}

/// What an association adds for its extensions: the *Open with* entry and the
/// capability of each.
pub open spec fn extension_values(
    extensions: Seq<String>,
    prog_id: Seq<char>,
    software: KeyView,
    capabilities: KeyView,
) -> Seq<DesiredValueView>
    decreases extensions.len(),
{
    if extensions.len() == 0 {
        Seq::<DesiredValueView>::empty()
    } else {
        extension_values(extensions.drop_last(), prog_id, software, capabilities) + seq![
            string_value(
                software.child("Classes\\"@ + extensions.last()@ + "\\OpenWithProgids"@),
                prog_id,
                ""@,
            ),
            string_value(
                capabilities.child("FileAssociations"@),
                extensions.last()@,
                prog_id,
            ),
        ]
    }
}

/// The values of an enabled association.
pub open spec fn association_values(
    association: FileAssociation,
    metadata: Metadata,
    software: KeyView,
    install_root: Seq<char>,
) -> Result<Seq<DesiredValueView>, ErrorView> {
    match target::placed_at(install_root, target::relative(association.executable@)) {
        Err(e) => Err(e),
        Ok(executable) => match shortcut::declared_or(
            association.icon@,
            install_root,
            executable,
        ) {
            Err(e) => Err(e),
            Ok(icon) => Ok(
                handler(
                    software,
                    association.prog_id@,
                    association.description@,
                    icon,
                    command(executable, registration::or_else(association.arguments@, "\"%1\""@)),
                    false,
                ) + extension_values(
                    association.extensions@,
                    association.prog_id@,
                    software,
                    capabilities_root(metadata, software),
                ),
            ),
        },
    }
}

/// What one declared association comes to.
pub open spec fn association_step(
    association: FileAssociation,
    metadata: Metadata,
    options: Map<Seq<char>, OptionView>,
    software: KeyView,
    install_root: Seq<char>,
) -> Result<(Seq<IntegrationView>, Seq<FindingView>), ErrorView> {
    let enabled = predicate::wanted(association.when, ""@, options);
    let values = if enabled {
        association_values(association, metadata, software, install_root)
    } else {
        Ok(Seq::<DesiredValueView>::empty())
    };
    match values {
        Err(e) => Err(e),
        Ok(values) => Ok(
            (
                seq![
                    IntegrationView {
                        kind: "file_association"@,
                        id: association.prog_id@,
                        enabled,
                        values,
                    },
                ],
                Seq::<FindingView>::empty(),
            ),
        ),
    }
}

/// Whether a result is what a specification says, each side by its view.
pub open spec fn values_agree(
    r: Result<Vec<DesiredValue>, Error>,
    s: Result<Seq<DesiredValueView>, ErrorView>,
) -> bool {
    match (r, s) {
        (Ok(a), Ok(b)) => text::views(a@) == b,
        (Err(a), Err(b)) => a@ == b,
        _ => false,
    }
}

fn default_text<'a>(declared: &'a str, default: &'a str) -> (r: &'a str)
    ensures
        r@ == registration::or_else(declared@, default@),
{
    if declared.is_empty() {
        default
    } else {
        declared
    }
}

fn compile_association(
    association: &FileAssociation,
    metadata: &Metadata,
    locations: &Locations,
    install_root: &str,
) -> (r: Result<Vec<DesiredValue>, Error>)
    ensures
        values_agree(
            r,
            association_values(*association, *metadata, locations.software_root@, install_root@),
        ),
{
    let executable = match resolve(install_root, association.executable.as_str()) {
        Err(e) => return Err(e),
        Ok(executable) => executable,
    };
    let icon = match resolve_icon(install_root, association.icon.as_str(), executable.as_str()) {
        Err(e) => return Err(e),
        Ok(icon) => icon,
    };
    let arguments = default_text(association.arguments.as_str(), "\"%1\"");
    let command = command_line(executable.as_str(), arguments);
    let mut out = handler_class(
        locations,
        association.prog_id.as_str(),
        association.description.as_str(),
        icon.as_str(),
        command.as_str(),
        false,
    );
    let ghost base = text::views(out@);
    let ghost software = locations.software_root@;
    let ghost root = capabilities_root(*metadata, software);
    let capabilities = capabilities_key(metadata, locations);
    let ghost all = association.extensions@;
    let mut i: usize = 0;
    assert(all.take(0) =~= Seq::<String>::empty());
    assert(base + extension_values(all.take(0), association.prog_id@, software, root) =~= base);
    while i < association.extensions.len()
        invariant
            i <= all.len(),
            all == association.extensions@,
            software == locations.software_root@,
            root == capabilities@,
            text::views(out@) == base + extension_values(
                all.take(i as int),
                association.prog_id@,
                software,
                root,
            ),
        decreases all.len() - i,
    {
        let extension = &association.extensions[i];
        let path = text::cat3("Classes\\", extension.as_str(), "\\OpenWithProgids");
        let listed = string(
            locations.software_key(path.as_str()),
            association.prog_id.as_str(),
            "",
        );
        let capable = string(
            capabilities.child("FileAssociations"),
            extension.as_str(),
            association.prog_id.as_str(),
        );
        proof {
            assert(all.take(i + 1).drop_last() =~= all.take(i as int));
            text::lemma_views_push(out@, listed);
            text::lemma_views_push(out@.push(listed), capable);
            assert(text::views(out@).push(listed@).push(capable@) =~= base + extension_values(
                all.take(i + 1),
                association.prog_id@,
                software,
                root,
            ));
        }
        out.push(listed);
        out.push(capable);
        i = i + 1;
    }
    assert(all.take(i as int) =~= all);
    Ok(out)
}

/// The ProgID a scheme handler is registered as.
pub open spec fn protocol_prog_id(protocol: UrlProtocol, metadata: Metadata) -> Seq<char> {
    if protocol.prog_id@.len() == 0 {
        text::without(component_form(metadata.package.name@), '.') + "."@ + protocol.scheme@
    } else {
        protocol.prog_id@
    }
}

/// Holds of the record of a key the engine created.
pub open spec fn created_key(key: Seq<char>) -> spec_fn(OwnedRegistryKey) -> bool {
    |k: OwnedRegistryKey| k.created && text::lower(k.key@) == text::lower(key)
}

/// Whether a scheme's own class key may be written: nothing else owns it —
/// it is absent, or the engine itself created it.
pub open spec fn scheme_is_free(scheme_key: KeyView, machine: Machine, owned: Owned) -> bool {
    lists::first(owned.registry_keys@, created_key(scheme_key.text())) is Some
        || !machine.has_key(scheme_key)
}

fn scheme_free(scheme_key: &KeyPath, machine: &Machine, owned: &Owned) -> (r: bool)
    ensures
        r == scheme_is_free(scheme_key@, *machine, *owned),
{
    let shown = scheme_key.to_string();
    let ghost p = created_key(scheme_key@.text());
    let mut i: usize = 0;
    while i < owned.registry_keys.len()
        invariant
            i <= owned.registry_keys@.len(),
            shown@ == scheme_key@.text(),
            p == created_key(scheme_key@.text()),
            forall|j: int| 0 <= j < i ==> !p(#[trigger] owned.registry_keys@[j]),
        decreases owned.registry_keys@.len() - i,
    {
        let k = &owned.registry_keys[i];
        if k.created && text::same_folded(k.key.as_str(), shown.as_str()) {
            proof {
                lists::lemma_first_at(owned.registry_keys@, p, i as int);
            }
            return true;
        }
        i = i + 1;
    }
    proof {
        lists::lemma_first_none(owned.registry_keys@, p);
    }
    !machine.key_exists(scheme_key)
}

/// The values of an enabled protocol, and the finding where its scheme is in
/// use by another application.
pub open spec fn protocol_values(
    protocol: UrlProtocol,
    metadata: Metadata,
    software: KeyView,
    install_root: Seq<char>,
    machine: Machine,
    owned: Owned,
) -> Result<(Seq<DesiredValueView>, Seq<FindingView>), ErrorView> {
    match target::placed_at(install_root, target::relative(protocol.executable@)) {
        Err(e) => Err(e),
        Ok(executable) => match shortcut::declared_or(protocol.icon@, install_root, executable) {
            Err(e) => Err(e),
            Ok(icon) => {
                let prog_id = protocol_prog_id(protocol, metadata);
                let run = command(
                    executable,
                    registration::or_else(protocol.arguments@, "\"%1\""@),
                );
                let description = "URL:"@ + registration::or_else(
                    protocol.description@,
                    protocol.scheme@,
                );
                let scheme_key = software.child("Classes\\"@ + protocol.scheme@);
                let own = handler(software, prog_id, description, icon, run, true) + seq![
                    string_value(
                        capabilities_root(metadata, software).child("URLAssociations"@),
                        protocol.scheme@,
                        prog_id,
                    ),
                ];
                if scheme_is_free(scheme_key, machine, owned) {
                    Ok(
                        (
                            own + handler(software, protocol.scheme@, description, icon, run, true),
                            Seq::<FindingView>::empty(),
                        ),
                    )
                } else {
                    Ok(
                        (
                            own,
                            seq![
                                report::finding(
                                    "url_protocol_scheme_in_use_preserved"@,
                                    scheme_key.text(),
                                ),
                            ],
                        ),
                    )
                }
            },
        },
    }
}

/// What one declared protocol comes to.
pub open spec fn protocol_step(
    protocol: UrlProtocol,
    metadata: Metadata,
    options: Map<Seq<char>, OptionView>,
    software: KeyView,
    install_root: Seq<char>,
    machine: Machine,
    owned: Owned,
) -> Result<(Seq<IntegrationView>, Seq<FindingView>), ErrorView> {
    let enabled = predicate::wanted(protocol.when, ""@, options);
    let compiled = if enabled {
        protocol_values(protocol, metadata, software, install_root, machine, owned)
    } else {
        Ok((Seq::<DesiredValueView>::empty(), Seq::<FindingView>::empty()))
    };
    match compiled {
        Err(e) => Err(e),
        Ok((values, findings)) => Ok(
            (
                seq![
                    IntegrationView {
                        kind: "url_protocol"@,
                        id: protocol.scheme@,
                        enabled,
                        values,
                    },
                ],
                findings,
            ),
        ),
    }
}

fn compile_protocol(
    protocol: &UrlProtocol,
    metadata: &Metadata,
    locations: &Locations,
    install_root: &str,
    machine: &Machine,
    owned: &Owned,
) -> (r: Result<(Vec<DesiredValue>, Vec<Finding>), Error>)
    ensures
        match (
            r,
            protocol_values(
                *protocol,
                *metadata,
                locations.software_root@,
                install_root@,
                *machine,
                *owned,
            ),
        ) {
            (Ok((a, b)), Ok((x, y))) => text::views(a@) == x && text::views(b@) == y,
            (Err(a), Err(b)) => a@ == b,
            _ => false,
        },
{
    let prog_id = if protocol.prog_id.as_str().is_empty() {
        let product = component(metadata.package.name.as_str());
        let product = text::without_char(product.as_str(), '.');
        text::cat3(product.as_str(), ".", protocol.scheme.as_str())
    } else {
        protocol.prog_id.clone()
    };
    let executable = match resolve(install_root, protocol.executable.as_str()) {
        Err(e) => return Err(e),
        Ok(executable) => executable,
    };
    let icon = match resolve_icon(install_root, protocol.icon.as_str(), executable.as_str()) {
        Err(e) => return Err(e),
        Ok(icon) => icon,
    };
    let arguments = default_text(protocol.arguments.as_str(), "\"%1\"");
    let command = command_line(executable.as_str(), arguments);
    let described = default_text(protocol.description.as_str(), protocol.scheme.as_str());
    let description = text::cat2("URL:", described);
    let mut out = handler_class(
        locations,
        prog_id.as_str(),
        description.as_str(),
        icon.as_str(),
        command.as_str(),
        true,
    );
    let ghost base = text::views(out@);
    let listed = string(
        capabilities_key(metadata, locations).child("URLAssociations"),
        protocol.scheme.as_str(),
        prog_id.as_str(),
    );
    proof {
        text::lemma_views_push(out@, listed);
        assert(base.push(listed@) =~= base + seq![listed@]);
    }
    out.push(listed);
    let mut findings: Vec<Finding> = Vec::new();
    let path = text::cat2("Classes\\", protocol.scheme.as_str());
    let scheme_key = locations.software_key(path.as_str());
    assert(text::views(findings@) =~= Seq::<FindingView>::empty());
    if scheme_free(&scheme_key, machine, owned) {
        let more = handler_class(
            locations,
            protocol.scheme.as_str(),
            description.as_str(),
            icon.as_str(),
            command.as_str(),
            true,
        );
        extend(&mut out, more);
    } else {
        let shown = scheme_key.to_string();
        let finding = Finding::named("url_protocol_scheme_in_use_preserved", shown.as_str());
        findings.push(finding);
        assert(text::views(findings@) =~= seq![finding@]);
    }
    Ok((out, findings))
}

/// What an App Paths entry without a file name is refused with.
pub open spec fn no_file_name(app_path: AppPath) -> ErrorView {
    ErrorView {
        code: "metadata_invalid"@,
        message: "App Paths entry "@ + app_path.executable@ + " has no file name"@,
    }
}

/// What one declared App Paths entry comes to.
pub open spec fn app_path_step(
    app_path: AppPath,
    options: Map<Seq<char>, OptionView>,
    software: KeyView,
    install_root: Seq<char>,
) -> Result<(Seq<IntegrationView>, Seq<FindingView>), ErrorView> {
    let enabled = predicate::wanted(app_path.when, ""@, options);
    match target::placed_at(install_root, target::relative(app_path.executable@)) {
        Err(e) => Err(e),
        Ok(executable) => {
            let file = target::file_name(executable);
            let key = software.child("Microsoft\\Windows\\CurrentVersion\\App Paths\\"@ + file);
            let directory = match target::parent_folder(executable) {
                Some(folder) => folder,
                None => Seq::<char>::empty(),
            };
            let values = if !enabled {
                Seq::<DesiredValueView>::empty()
            } else if app_path.add_directory {
                seq![
                    string_value(key, ""@, executable),
                    string_value(key, "Path"@, directory),
                ]
            } else {
                seq![string_value(key, ""@, executable)]
            };
            if file.len() == 0 {
                Err(no_file_name(app_path))
            } else {
                Ok(
                    (
                        seq![IntegrationView { kind: "app_path"@, id: file, enabled, values }],
                        Seq::<FindingView>::empty(),
                    ),
                )
            }
        },
    }
}

/// Whether a result is what a specification says of one integration.
pub open spec fn item_agrees(
    r: Result<(Integration, Vec<Finding>), Error>,
    s: Result<(Seq<IntegrationView>, Seq<FindingView>), ErrorView>,
) -> bool {
    match (r, s) {
        (Ok((item, findings)), Ok((x, y))) => seq![item@] == x && text::views(findings@) == y,
        (Err(a), Err(b)) => a@ == b,
        _ => false,
    }
}

fn no_findings() -> (r: Vec<Finding>)
    ensures
        text::views(r@) == Seq::<FindingView>::empty(),
{
    let out: Vec<Finding> = Vec::new();
    assert(text::views(out@) =~= Seq::<FindingView>::empty());
    out
}

fn no_values() -> (r: Vec<DesiredValue>)
    ensures
        text::views(r@) == Seq::<DesiredValueView>::empty(),
{
    let out: Vec<DesiredValue> = Vec::new();
    assert(text::views(out@) =~= Seq::<DesiredValueView>::empty());
    out
}

fn association_item(
    association: &FileAssociation,
    metadata: &Metadata,
    options: &Options,
    locations: &Locations,
    install_root: &str,
) -> (r: Result<(Integration, Vec<Finding>), Error>)
    ensures
        item_agrees(
            r,
            association_step(
                *association,
                *metadata,
                options@,
                locations.software_root@,
                install_root@,
            ),
        ),
{
    let enabled = predicate::enabled(association.when.as_ref(), "", options);
    let values = if enabled {
        match compile_association(association, metadata, locations, install_root) {
            Err(e) => return Err(e),
            Ok(values) => values,
        }
    } else {
        no_values()
    };
    Ok(
        (
            Integration {
                kind: "file_association",
                id: association.prog_id.clone(),
                enabled,
                values,
            },
            no_findings(),
        ),
    )
}

fn protocol_item(
    protocol: &UrlProtocol,
    metadata: &Metadata,
    options: &Options,
    locations: &Locations,
    install_root: &str,
    machine: &Machine,
    owned: &Owned,
) -> (r: Result<(Integration, Vec<Finding>), Error>)
    ensures
        item_agrees(
            r,
            protocol_step(
                *protocol,
                *metadata,
                options@,
                locations.software_root@,
                install_root@,
                *machine,
                *owned,
            ),
        ),
{
    let enabled = predicate::enabled(protocol.when.as_ref(), "", options);
    let (values, findings) = if enabled {
        match compile_protocol(protocol, metadata, locations, install_root, machine, owned) {
            Err(e) => return Err(e),
            Ok(compiled) => compiled,
        }
    } else {
        (no_values(), no_findings())
    };
    Ok(
        (
            Integration { kind: "url_protocol", id: protocol.scheme.clone(), enabled, values },
            findings,
        ),
    )
}

fn app_path_item(app_path: &AppPath, options: &Options, locations: &Locations, install_root: &str) -> (r:
    Result<(Integration, Vec<Finding>), Error>)
    ensures
        item_agrees(
            r,
            app_path_step(*app_path, options@, locations.software_root@, install_root@),
        ),
{
    let enabled = predicate::enabled(app_path.when.as_ref(), "", options);
    let executable = match resolve(install_root, app_path.executable.as_str()) {
        Err(e) => return Err(e),
        Ok(executable) => executable,
    };
    let file = target::file_name_of(executable.as_str());
    if file.as_str().is_empty() {
        let message = text::cat3(
            "App Paths entry ",
            app_path.executable.as_str(),
            " has no file name",
        );
        return Err(Error::new("metadata_invalid", message.as_str()));
    }
    let mut values = no_values();
    if enabled {
        let path = text::cat2(
            "Microsoft\\Windows\\CurrentVersion\\App Paths\\",
            file.as_str(),
        );
        let key = locations.software_key(path.as_str());
        let whole = string(key.clone(), "", executable.as_str());
        values.push(whole);
        assert(text::views(values@) =~= seq![whole@]);
        if app_path.add_directory {
            let directory = match target::parent_folder_of(executable.as_str()) {
                Some(folder) => folder,
                None => String::new(),
            };
            let folder = string(key, "Path", directory.as_str());
            values.push(folder);
            assert(text::views(values@) =~= seq![whole@, folder@]);
        }
    }
    Ok((Integration { kind: "app_path", id: file, enabled, values }, no_findings()))
}

/// The word a context-menu target is reported by.
pub open spec fn target_word(t: ContextMenuTarget) -> Seq<char> {
    match t {
        ContextMenuTarget::Directories => "directories"@,
        ContextMenuTarget::DirectoryBackground => "directory-background"@,
        ContextMenuTarget::Files => "files"@,
    }
}

/// The classes a verb is registered for.
pub open spec fn verb_classes(verb: ContextMenuVerb) -> Seq<Seq<char>> {
    match verb.target {
        ContextMenuTarget::Directories => seq!["Directory"@],
        ContextMenuTarget::DirectoryBackground => seq!["Directory\\Background"@],
        ContextMenuTarget::Files => if verb.extensions@.len() == 0 {
            seq!["*"@]
        } else {
            text::views(verb.extensions@).map_values(
                |e: Seq<char>| "SystemFileAssociations\\"@ + e,
            )
        },
    }
}

/// The values of a verb for one class: its label, its icon where it has one,
/// its command.
pub open spec fn class_values(
    verb: ContextMenuVerb,
    class: Seq<char>,
    software: KeyView,
    icon: Option<Seq<char>>,
    run: Seq<char>,
) -> Seq<DesiredValueView> {
    let key = software.child("Classes\\"@ + class + "\\shell\\"@ + verb.verb@);
    let label = seq![string_value(key, ""@, verb.label@)];
    let shown = match icon {
        Some(icon) => seq![string_value(key, "Icon"@, icon)],
        None => Seq::<DesiredValueView>::empty(),
    };
    label + shown + seq![string_value(key.child("command"@), ""@, run)]
}

/// The values of a verb for each of its classes.
pub open spec fn classes_values(
    verb: ContextMenuVerb,
    classes: Seq<Seq<char>>,
    software: KeyView,
    icon: Option<Seq<char>>,
    run: Seq<char>,
) -> Seq<DesiredValueView>
    decreases classes.len(),
{
    if classes.len() == 0 {
        Seq::<DesiredValueView>::empty()
    } else {
        classes_values(verb, classes.drop_last(), software, icon, run) + class_values(
            verb,
            classes.last(),
            software,
            icon,
            run,
        )
    }
}

/// The values of an enabled verb.
pub open spec fn verb_values(
    verb: ContextMenuVerb,
    software: KeyView,
    install_root: Seq<char>,
) -> Result<Seq<DesiredValueView>, ErrorView> {
    let default_arguments = match verb.target {
        ContextMenuTarget::DirectoryBackground => "\"%V\""@,
        _ => "\"%1\""@,
    };
    match target::placed_at(install_root, target::relative(verb.executable@)) {
        Err(e) => Err(e),
        Ok(executable) => {
            let run = command(
                executable,
                registration::or_else(verb.arguments@, default_arguments),
            );
            if verb.icon@.len() == 0 {
                Ok(classes_values(verb, verb_classes(verb), software, None, run))
            } else {
                match target::placed_at(install_root, target::relative(verb.icon@)) {
                    Err(e) => Err(e),
                    Ok(icon) => Ok(
                        classes_values(verb, verb_classes(verb), software, Some(icon), run),
                    ),
                }
            }
        },
    }
}

/// What one declared verb comes to.
pub open spec fn verb_step(
    verb: ContextMenuVerb,
    options: Map<Seq<char>, OptionView>,
    software: KeyView,
    install_root: Seq<char>,
) -> Result<(Seq<IntegrationView>, Seq<FindingView>), ErrorView> {
    let enabled = predicate::wanted(verb.when, ""@, options);
    let values = if enabled {
        verb_values(verb, software, install_root)
    } else {
        Ok(Seq::<DesiredValueView>::empty())
    };
    match values {
        Err(e) => Err(e),
        Ok(values) => Ok(
            (
                seq![
                    IntegrationView {
                        kind: "context_menu"@,
                        id: target_word(verb.target) + ":"@ + verb.verb@,
                        enabled,
                        values,
                    },
                ],
                Seq::<FindingView>::empty(),
            ),
        ),
    }
}

fn classes_of(verb: &ContextMenuVerb) -> (r: Vec<String>)
    ensures
        text::views(r@) == verb_classes(*verb),
{
    let mut out: Vec<String> = Vec::new();
    match verb.target {
        ContextMenuTarget::Directories => {
            out.push(text::owned("Directory"));
            assert(text::views(out@) =~= verb_classes(*verb));
        },
        ContextMenuTarget::DirectoryBackground => {
            out.push(text::owned("Directory\\Background"));
            assert(text::views(out@) =~= verb_classes(*verb));
        },
        ContextMenuTarget::Files => {
            if verb.extensions.len() == 0 {
                out.push(text::owned("*"));
                assert(text::views(out@) =~= verb_classes(*verb));
            } else {
                let ghost wanted = verb_classes(*verb);
                let mut i: usize = 0;
                assert(text::views(out@) =~= wanted.take(0));
                while i < verb.extensions.len()
                    invariant
                        i <= verb.extensions@.len(),
                        verb.extensions@.len() > 0,
                        verb.target == ContextMenuTarget::Files,
                        wanted == verb_classes(*verb),
                        text::views(out@) == wanted.take(i as int),
                    decreases verb.extensions@.len() - i,
                {
                    let class = text::cat2(
                        "SystemFileAssociations\\",
                        verb.extensions[i].as_str(),
                    );
                    proof {
                        text::lemma_views_push(out@, class);
                        assert(text::views(verb.extensions@)[i as int]
                            == verb.extensions@[i as int]@);
                        assert(wanted[i as int] == class@);
                        assert(wanted.take(i + 1) =~= wanted.take(i as int).push(class@));
                    }
                    out.push(class);
                    i = i + 1;
                }
                assert(wanted.take(i as int) =~= wanted);
            }
        },
    }
    out
}

fn compile_verb(verb: &ContextMenuVerb, locations: &Locations, install_root: &str) -> (r: Result<
    Vec<DesiredValue>,
    Error,
>)
    ensures
        values_agree(r, verb_values(*verb, locations.software_root@, install_root@)),
{
    let executable = match resolve(install_root, verb.executable.as_str()) {
        Err(e) => return Err(e),
        Ok(executable) => executable,
    };
    let default_arguments = match verb.target {
        ContextMenuTarget::DirectoryBackground => "\"%V\"",
        _ => "\"%1\"",
    };
    let arguments = default_text(verb.arguments.as_str(), default_arguments);
    let command = command_line(executable.as_str(), arguments);
    let icon = if verb.icon.as_str().is_empty() {
        None
    } else {
        match resolve(install_root, verb.icon.as_str()) {
            Err(e) => return Err(e),
            Ok(icon) => Some(icon),
        }
    };
    let classes = classes_of(verb);
    let ghost all = text::views(classes@);
    let ghost software = locations.software_root@;
    let ghost shown = text::option_view(icon);
    let mut out = no_values();
    let mut i: usize = 0;
    assert(all.take(0) =~= Seq::<Seq<char>>::empty());
    while i < classes.len()
        invariant
            i <= classes@.len(),
            all == text::views(classes@),
            software == locations.software_root@,
            shown == text::option_view(icon),
            text::views(out@) == classes_values(
                *verb,
                all.take(i as int),
                software,
                shown,
                command@,
            ),
        decreases classes@.len() - i,
    {
        let ghost before = text::views(out@);
        assert(all[i as int] == classes@[i as int]@);
        assert(all.take(i + 1).drop_last() =~= all.take(i as int));
        let path = text::cat4(
            "Classes\\",
            classes[i].as_str(),
            "\\shell\\",
            verb.verb.as_str(),
        );
        let key = locations.software_key(path.as_str());
        let mut these = no_values();
        these.push(string(key.clone(), "", verb.label.as_str()));
        if let Some(icon) = &icon {
            these.push(string(key.clone(), "Icon", icon.as_str()));
        }
        these.push(string(key.child("command"), "", command.as_str()));
        assert(text::views(these@) =~= class_values(
            *verb,
            all[i as int],
            software,
            shown,
            command@,
        ));
        extend(&mut out, these);
        i = i + 1;
    }
    assert(all.take(i as int) =~= all);
    Ok(out)
}

fn verb_item(verb: &ContextMenuVerb, options: &Options, locations: &Locations, install_root: &str) -> (r:
    Result<(Integration, Vec<Finding>), Error>)
    ensures
        item_agrees(r, verb_step(*verb, options@, locations.software_root@, install_root@)),
{
    let enabled = predicate::enabled(verb.when.as_ref(), "", options);
    let target_name = match verb.target {
        ContextMenuTarget::Directories => "directories",
        ContextMenuTarget::DirectoryBackground => "directory-background",
        ContextMenuTarget::Files => "files",
    };
    let values = if enabled {
        match compile_verb(verb, locations, install_root) {
            Err(e) => return Err(e),
            Ok(values) => values,
        }
    } else {
        no_values()
    };
    let id = text::cat3(target_name, ":", verb.verb.as_str());
    Ok((Integration { kind: "context_menu", id, enabled, values }, no_findings()))
}

/// What every declared integration comes to, in declaration order:
/// associations, protocols, App Paths entries, verbs.
pub open spec fn integration_steps(
    metadata: Metadata,
    options: Map<Seq<char>, OptionView>,
    software: KeyView,
    install_root: Seq<char>,
    machine: Machine,
    owned: Owned,
) -> Seq<Result<(Seq<IntegrationView>, Seq<FindingView>), ErrorView>> {
    metadata.file_associations@.map_values(
        |a: FileAssociation| association_step(a, metadata, options, software, install_root),
    ) + metadata.url_protocols@.map_values(
        |p: UrlProtocol|
            protocol_step(p, metadata, options, software, install_root, machine, owned),
    ) + metadata.app_paths@.map_values(
        |a: AppPath| app_path_step(a, options, software, install_root),
    ) + metadata.context_menu_verbs@.map_values(
        |v: ContextMenuVerb| verb_step(v, options, software, install_root),
    )
}

/// Holds of an enabled association.
pub open spec fn association_on(options: Map<Seq<char>, OptionView>) -> spec_fn(
    FileAssociation,
) -> bool {
    |a: FileAssociation| predicate::wanted(a.when, ""@, options)
}

/// Holds of an enabled protocol.
pub open spec fn protocol_on(options: Map<Seq<char>, OptionView>) -> spec_fn(UrlProtocol) -> bool {
    |p: UrlProtocol| predicate::wanted(p.when, ""@, options)
}

/// Whether the product is registered as capable of anything: an association
/// or a protocol is enabled.
pub open spec fn is_capable(metadata: Metadata, options: Map<Seq<char>, OptionView>) -> bool {
    lists::first(metadata.file_associations@, association_on(options)) is Some || lists::first(
        metadata.url_protocols@,
        protocol_on(options),
    ) is Some
}

/// The compiled integrations of a package.
pub open spec fn compiled(
    metadata: Metadata,
    options: Map<Seq<char>, OptionView>,
    software: KeyView,
    install_root: Seq<char>,
    machine: Machine,
    owned: Owned,
) -> Result<(Seq<IntegrationView>, Seq<FindingView>), ErrorView> {
    match lists::gathered(
        integration_steps(metadata, options, software, install_root, machine, owned),
    ) {
        Err(e) => Err(e),
        Ok((items, findings)) => if is_capable(metadata, options) {
            Ok(
                (
                    items.push(
                        IntegrationView {
                            kind: "capabilities"@,
                            id: metadata.package.name@,
                            enabled: true,
                            values: capabilities(metadata, software),
                        },
                    ),
                    findings,
                ),
            )
        } else {
            Ok((items, findings))
        },
    }
}

/// Adds a compiled integration to what was compiled before.
fn add_item(out: &mut Integrations, item: Integration, findings: Vec<Finding>)
    ensures
        text::views(final(out).items@) == text::views(old(out).items@) + seq![item@],
        text::views(final(out).findings@) == text::views(old(out).findings@) + text::views(
            findings@,
        ),
{
    let ghost items = out.items@;
    let ghost said = out.findings@;
    let ghost more = findings@;
    let mut findings = findings;
    out.items.push(item);
    out.findings.append(&mut findings);
    proof {
        text::lemma_views_push(items, item);
        assert(text::views(items).push(item@) =~= text::views(items) + seq![item@]);
        text::lemma_views_concat(said, more);
    }
}

fn any_association(metadata: &Metadata, options: &Options) -> (r: bool)
    ensures
        r == (lists::first(metadata.file_associations@, association_on(options@)) is Some),
{
    let ghost p = association_on(options@);
    let mut i: usize = 0;
    while i < metadata.file_associations.len()
        invariant
            i <= metadata.file_associations@.len(),
            p == association_on(options@),
            forall|j: int| 0 <= j < i ==> !p(#[trigger] metadata.file_associations@[j]),
        decreases metadata.file_associations@.len() - i,
    {
        if predicate::enabled(metadata.file_associations[i].when.as_ref(), "", options) {
            proof {
                lists::lemma_first_at(metadata.file_associations@, p, i as int);
            }
            return true;
        }
        i = i + 1;
    }
    proof {
        lists::lemma_first_none(metadata.file_associations@, p);
    }
    false
}

fn any_protocol(metadata: &Metadata, options: &Options) -> (r: bool)
    ensures
        r == (lists::first(metadata.url_protocols@, protocol_on(options@)) is Some),
{
    let ghost p = protocol_on(options@);
    let mut i: usize = 0;
    while i < metadata.url_protocols.len()
        invariant
            i <= metadata.url_protocols@.len(),
            p == protocol_on(options@),
            forall|j: int| 0 <= j < i ==> !p(#[trigger] metadata.url_protocols@[j]),
        decreases metadata.url_protocols@.len() - i,
    {
        if predicate::enabled(metadata.url_protocols[i].when.as_ref(), "", options) {
            proof {
                lists::lemma_first_at(metadata.url_protocols@, p, i as int);
            }
            return true;
        }
        i = i + 1;
    }
    proof {
        lists::lemma_first_none(metadata.url_protocols@, p);
    }
    false
}

/// Compiles the declared integrations for this run.
pub fn desired(
    metadata: &Metadata,
    options: &Options,
    locations: &Locations,
    install_root: &str,
    machine: &Machine,
    owned: &Owned,
) -> (r: Result<Integrations, Error>)
    ensures
        match (
            r,
            compiled(
                *metadata,
                options@,
                locations.software_root@,
                install_root@,
                *machine,
                *owned,
            ),
        ) {
            (Ok(out), Ok((items, findings))) => text::views(out.items@) == items && text::views(
                out.findings@,
            ) == findings,
            (Err(a), Err(b)) => a@ == b,
            _ => false,
        },
{
    let ghost software = locations.software_root@;
    let ghost steps = integration_steps(
        *metadata,
        options@,
        software,
        install_root@,
        *machine,
        *owned,
    );
    let mut out = Integrations { items: Vec::new(), findings: Vec::new() };
    let a = metadata.file_associations.len();
    let p = metadata.url_protocols.len();
    let u = metadata.app_paths.len();
    let ghost first = a as int;
    let ghost second = a as int + p as int;
    let ghost third = a as int + p as int + u as int;
    assert(steps.take(0) =~= Seq::empty());
    assert(text::views(out.items@) =~= Seq::<IntegrationView>::empty());
    assert(text::views(out.findings@) =~= Seq::<FindingView>::empty());
    let mut i: usize = 0;
    while i < metadata.file_associations.len()
        invariant
            i <= a == metadata.file_associations@.len(),
            software == locations.software_root@,
            steps == integration_steps(
                *metadata,
                options@,
                software,
                install_root@,
                *machine,
                *owned,
            ),
            lists::gathered(steps.take(i as int)) == Ok::<
                (Seq<IntegrationView>, Seq<FindingView>),
                ErrorView,
            >((text::views(out.items@), text::views(out.findings@))),
        decreases a - i,
    {
        proof {
            lists::lemma_gathered_take(steps, i as int);
        }
        match association_item(
            &metadata.file_associations[i],
            metadata,
            options,
            locations,
            install_root,
        ) {
            Err(e) => {
                proof {
                    lists::lemma_gathered_fails(steps, i + 1);
                }
                return Err(e);
            },
            Ok((item, findings)) => add_item(&mut out, item, findings),
        }
        i = i + 1;
    }
    let mut i: usize = 0;
    while i < metadata.url_protocols.len()
        invariant
            i <= p == metadata.url_protocols@.len(),
            first == metadata.file_associations@.len(),
            software == locations.software_root@,
            steps == integration_steps(
                *metadata,
                options@,
                software,
                install_root@,
                *machine,
                *owned,
            ),
            lists::gathered(steps.take(first + i)) == Ok::<
                (Seq<IntegrationView>, Seq<FindingView>),
                ErrorView,
            >((text::views(out.items@), text::views(out.findings@))),
        decreases p - i,
    {
        proof {
            lists::lemma_gathered_take(steps, first + i);
        }
        match protocol_item(
            &metadata.url_protocols[i],
            metadata,
            options,
            locations,
            install_root,
            machine,
            owned,
        ) {
            Err(e) => {
                proof {
                    lists::lemma_gathered_fails(steps, first + i + 1);
                }
                return Err(e);
            },
            Ok((item, findings)) => add_item(&mut out, item, findings),
        }
        i = i + 1;
    }
    let mut i: usize = 0;
    while i < metadata.app_paths.len()
        invariant
            i <= u == metadata.app_paths@.len(),
            second == metadata.file_associations@.len() + metadata.url_protocols@.len(),
            software == locations.software_root@,
            steps == integration_steps(
                *metadata,
                options@,
                software,
                install_root@,
                *machine,
                *owned,
            ),
            lists::gathered(steps.take(second + i)) == Ok::<
                (Seq<IntegrationView>, Seq<FindingView>),
                ErrorView,
            >((text::views(out.items@), text::views(out.findings@))),
        decreases u - i,
    {
        proof {
            lists::lemma_gathered_take(steps, second + i);
        }
        match app_path_item(&metadata.app_paths[i], options, locations, install_root) {
            Err(e) => {
                proof {
                    lists::lemma_gathered_fails(steps, second + i + 1);
                }
                return Err(e);
            },
            Ok((item, findings)) => add_item(&mut out, item, findings),
        }
        i = i + 1;
    }
    let mut i: usize = 0;
    while i < metadata.context_menu_verbs.len()
        invariant
            i <= metadata.context_menu_verbs@.len(),
            third == metadata.file_associations@.len() + metadata.url_protocols@.len()
                + metadata.app_paths@.len(),
            software == locations.software_root@,
            steps == integration_steps(
                *metadata,
                options@,
                software,
                install_root@,
                *machine,
                *owned,
            ),
            lists::gathered(steps.take(third + i)) == Ok::<
                (Seq<IntegrationView>, Seq<FindingView>),
                ErrorView,
            >((text::views(out.items@), text::views(out.findings@))),
        decreases metadata.context_menu_verbs@.len() - i,
    {
        proof {
            lists::lemma_gathered_take(steps, third + i);
        }
        match verb_item(&metadata.context_menu_verbs[i], options, locations, install_root) {
            Err(e) => {
                proof {
                    lists::lemma_gathered_fails(steps, third + i + 1);
                }
                return Err(e);
            },
            Ok((item, findings)) => add_item(&mut out, item, findings),
        }
        i = i + 1;
    }
    assert(steps.take(third + i) =~= steps);
    if any_association(metadata, options) || any_protocol(metadata, options) {
        let item = Integration {
            kind: "capabilities",
            id: metadata.package.name.clone(),
            enabled: true,
            values: capability_values(metadata, locations),
        };
        proof {
            text::lemma_views_push(out.items@, item);
        }
        out.items.push(item);
    }
    Ok(out)
}

/// What the machine holds of one integration: how many of its values are
/// present with the intended data, and whether the installation owns them.
#[derive(Debug, Clone, Copy, PartialEq, Eq, Structural)]
pub struct Presence {
    pub values_total: usize,
    pub values_present: usize,
    pub values_owned: usize,
}

/// Holds of a value the machine has with the intended data.
pub open spec fn is_there(machine: Machine) -> spec_fn(DesiredValueView) -> bool {
    |v: DesiredValueView| machine.value(v.key, v.name) == Some(v.data)
}

/// Holds of the record of a value.
pub open spec fn records(key: Seq<char>, name: Seq<char>) -> spec_fn(OwnedRegistryValue) -> bool {
    |v: OwnedRegistryValue| text::lower(v.key@) == text::lower(key) && text::lower(v.name@)
        == text::lower(name)
}

/// Holds of a value the installation owns.
pub open spec fn is_owned(owned: Owned) -> spec_fn(DesiredValueView) -> bool {
    |v: DesiredValueView| lists::first(owned.registry_values@, records(v.key.text(), v.name)) is Some
}

/// The record of a value, where the installation owns it.
pub fn owned_value<'a>(values: &'a Vec<OwnedRegistryValue>, key: &str, name: &str) -> (r: Option<
    &'a OwnedRegistryValue,
>)
    ensures
        match r {
            Some(v) => lists::first(values@, records(key@, name@)) == Some(*v),
            None => lists::first(values@, records(key@, name@)) is None,
        },
{
    let ghost p = records(key@, name@);
    let mut i: usize = 0;
    while i < values.len()
        invariant
            i <= values@.len(),
            p == records(key@, name@),
            forall|j: int| 0 <= j < i ==> !p(#[trigger] values@[j]),
        decreases values@.len() - i,
    {
        if text::same_folded(values[i].key.as_str(), key) && text::same_folded(
            values[i].name.as_str(),
            name,
        ) {
            proof {
                lists::lemma_first_at(values@, p, i as int);
            }
            return Some(&values[i]);
        }
        i = i + 1;
    }
    proof {
        lists::lemma_first_none(values@, p);
    }
    None
}

/// Reads the machine for an integration's values.
pub fn presence(integration: &Integration, machine: &Machine, owned: &Owned) -> (r: Presence)
    ensures
        r.values_total == integration.values@.len(),
        r.values_present == integration@.values.filter(is_there(*machine)).len(),
        r.values_owned == integration@.values.filter(is_owned(*owned)).len(),
{
    let ghost all = integration@.values;
    let mut present: usize = 0;
    let mut owned_count: usize = 0;
    let mut i: usize = 0;
    proof {
        reveal(Seq::filter);
    }
    while i < integration.values.len()
        invariant
            i <= integration.values@.len(),
            all == text::views(integration.values@),
            present == all.take(i as int).filter(is_there(*machine)).len(),
            owned_count == all.take(i as int).filter(is_owned(*owned)).len(),
            present <= i,
            owned_count <= i,
        decreases integration.values@.len() - i,
    {
        let value = &integration.values[i];
        assert(all[i as int] == value@);
        proof {
            lists::lemma_filter_take(all, is_there(*machine), i as int);
            lists::lemma_filter_take(all, is_owned(*owned), i as int);
        }
        if let Some(current) = machine.read_value(&value.key, value.name.as_str()) {
            if current.same(&value.data) {
                present = present + 1;
            }
        }
        let key = value.key.to_string();
        if owned_value(&owned.registry_values, key.as_str(), value.name.as_str()).is_some() {
            owned_count = owned_count + 1;
        }
        i = i + 1;
    }
    assert(all.take(i as int) =~= all);
    Presence {
        values_total: integration.values.len(),
        values_present: present,
        values_owned: owned_count,
    }
}

}
