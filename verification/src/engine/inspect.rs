//! Describing a package and whatever the machine holds for it. Never mutates.

use vstd::prelude::*;

use crate::dependency;
use crate::engine::package;
use crate::engine::package::{Package, RootsView, RunOptions};
use crate::engine::verify;
use crate::engine::verify::State;
use crate::error::{Error, ErrorView};
use crate::machine::Machine;
use crate::report::documents::{
    ActionDeclaration, EngineInfo, EnvironmentVariableInfo, ExistingInstallation, InspectReport,
    LaunchDeclaration, OptionInfo, OwnedActionInfo, OwnedResources, PackageInfo, PathEntryInfo,
    RecordedOption, SCHEMA,
};
use crate::report::{Finding, FindingView};
use crate::resource::predicate::{OptionEntry, Options};
use crate::resource::registry;
use crate::state::installation::{
    Owned, OwnedAction, OwnedEnvironmentVariable, OwnedFirewallRule, OwnedPathEntry,
    OwnedRegistryValue, OwnedShortcut,
};
use crate::text;

verus! {

/// Whether a document describes a package.
pub open spec fn tells_package(i: PackageInfo, p: Package) -> bool {
    let m = p.metadata;
    &&& i.id@ == m.package.id@
    &&& i.name@ == m.package.name@
    &&& i.version@ == m.package.version@
    &&& i.publisher@ == m.package.publisher@
    &&& i.scopes@.len() == m.install.scopes@.len()
    &&& forall|k: int|
        0 <= k < i.scopes@.len() ==> (#[trigger] i.scopes@[k])@ == m.install.scopes@[k].name()
    &&& i.options@.len() == m.options@.len()
    &&& forall|k: int| 0 <= k < i.options@.len() ==> (#[trigger] i.options@[k]).tells(m.options@[k])
    &&& i.actions@.len() == m.actions@.len()
    &&& forall|k: int| 0 <= k < i.actions@.len() ==> (#[trigger] i.actions@[k]).tells(m.actions@[k])
    &&& match (i.launch, m.launch) {
        (Some(a), Some(b)) => a.tells(b),
        (None, None) => true,
        _ => false,
    }
    &&& i.metadata_sha256@ == p.metadata_sha256@
    &&& i.engine.tigersetup_version@ == p.tigersetup_version@
    &&& i.engine.engine_sha256@ == p.engine_sha256@
    &&& i.engine.engine_block_sha256@ == p.engine_block_sha256@
}

/// The document that describes a package.
pub fn info(p: &Package) -> (r: PackageInfo)
    ensures
        tells_package(r, *p),
{
    let m = &p.metadata;
    let mut scopes: Vec<&'static str> = Vec::new();
    let mut i: usize = 0;
    while i < m.install.scopes.len()
        invariant
            i <= m.install.scopes@.len(),
            scopes@.len() == i,
            forall|k: int| 0 <= k < i ==> (#[trigger] scopes@[k])@ == m.install.scopes@[k].name(),
        decreases m.install.scopes@.len() - i,
    {
        scopes.push(m.install.scopes[i].as_str());
        i = i + 1;
    }
    let mut options: Vec<OptionInfo> = Vec::new();
    let mut i: usize = 0;
    while i < m.options.len()
        invariant
            i <= m.options@.len(),
            options@.len() == i,
            forall|k: int| 0 <= k < i ==> (#[trigger] options@[k]).tells(m.options@[k]),
        decreases m.options@.len() - i,
    {
        options.push(OptionInfo::of(&m.options[i]));
        i = i + 1;
    }
    let mut actions: Vec<ActionDeclaration> = Vec::new();
    let mut i: usize = 0;
    while i < m.actions.len()
        invariant
            i <= m.actions@.len(),
            actions@.len() == i,
            forall|k: int| 0 <= k < i ==> (#[trigger] actions@[k]).tells(m.actions@[k]),
        decreases m.actions@.len() - i,
    {
        actions.push(ActionDeclaration::of(&m.actions[i]));
        i = i + 1;
    }
    let launch = match &m.launch {
        Some(launch) => Some(LaunchDeclaration::of(launch)),
        None => None,
    };
    PackageInfo {
        id: m.package.id.clone(),
        name: m.package.name.clone(),
        version: m.package.version.clone(),
        publisher: m.package.publisher.clone(),
        scopes,
        options,
        actions,
        launch,
        metadata_sha256: p.metadata_sha256.clone(),
        engine: EngineInfo {
            tigersetup_version: p.tigersetup_version.clone(),
            engine_sha256: p.engine_sha256.clone(),
            engine_block_sha256: p.engine_block_sha256.clone(),
        },
    }
}

/// Whether a document lists what an installation owns, each list in the
/// recorded order.
pub open spec fn lists_owned(r: OwnedResources, owned: Owned, recorded: Seq<OptionEntry>) -> bool {
    &&& r.options@.len() == recorded.len()
    &&& forall|i: int|
        0 <= i < r.options@.len() ==> (#[trigger] r.options@[i]).name@ == recorded[i].name@
            && r.options@[i].value == recorded[i].value
    &&& text::option_view(r.registration_key) == text::option_view(owned.registration_key)
    &&& text::views(r.registry_values@) == owned.registry_values@.map_values(
        |v: OwnedRegistryValue| registry::located(v.key@, v.name@),
    )
    &&& r.path_entries@.len() == owned.path_entries@.len()
    &&& forall|i: int|
        0 <= i < r.path_entries@.len() ==> (#[trigger] r.path_entries@[i]).hive_key@
            == owned.path_entries@[i].hive_key@ && r.path_entries@[i].entry@
            == owned.path_entries@[i].raw@ && r.path_entries@[i].pre_existed
            == owned.path_entries@[i].pre_existed
    &&& text::views(r.shortcuts@) == owned.shortcuts@.map_values(|s: OwnedShortcut| s.path@)
    &&& r.environment_variables@.len() == owned.environment_variables@.len()
    &&& forall|i: int|
        0 <= i < r.environment_variables@.len() ==> (
        #[trigger] r.environment_variables@[i]).hive_key@
            == owned.environment_variables@[i].hive_key@ && r.environment_variables@[i].name@
            == owned.environment_variables@[i].name@ && r.environment_variables@[i].pre_existed
            == owned.environment_variables@[i].pre_existed
    &&& text::views(r.firewall_rules@) == owned.firewall_rules@.map_values(
        |f: OwnedFirewallRule| f.name@,
    )
    &&& r.actions@.len() == owned.actions@.len()
    &&& forall|i: int|
        0 <= i < r.actions@.len() ==> (#[trigger] r.actions@[i]).name@ == owned.actions@[i].name@
            && r.actions@[i].phase@ == owned.actions@[i].phase@ && text::option_view(
            r.actions@[i].sha256,
        ) == text::option_view(owned.actions@[i].artifact_sha256) && text::option_view(
            r.actions@[i].file_name,
        ) == text::option_view(owned.actions@[i].artifact_file)
}

/// The recorded options as a report carries them.
pub fn options_listed(options: &Options) -> (r: Vec<RecordedOption>)
    ensures
        r@.len() == options.listed().len(),
        forall|i: int|
            0 <= i < r@.len() ==> (#[trigger] r@[i]).name@ == options.listed()[i].name@
                && r@[i].value == options.listed()[i].value,
{
    let entries = options.entries();
    let mut out: Vec<RecordedOption> = Vec::new();
    let mut i: usize = 0;
    while i < entries.len()
        invariant
            i <= entries@.len(),
            entries@ == options.listed(),
            out@.len() == i,
            forall|k: int|
                0 <= k < i ==> (#[trigger] out@[k]).name@ == entries@[k].name@ && out@[k].value
                    == entries@[k].value,
        decreases entries@.len() - i,
    {
        out.push(
            RecordedOption { name: entries[i].name.clone(), value: entries[i].value.clone() },
        );
        i = i + 1;
    }
    out
}

/// The document that lists what an installation owns.
pub fn owned_resources(owned: &Owned, recorded: &Options) -> (r: OwnedResources)
    ensures
        lists_owned(r, *owned, recorded.listed()),
{
    let options = options_listed(recorded);
    let ghost places = owned.registry_values@.map_values(
        |v: OwnedRegistryValue| registry::located(v.key@, v.name@),
    );
    let mut registry_values: Vec<String> = Vec::new();
    let mut i: usize = 0;
    while i < owned.registry_values.len()
        invariant
            i <= owned.registry_values@.len(),
            places == owned.registry_values@.map_values(
                |v: OwnedRegistryValue| registry::located(v.key@, v.name@),
            ),
            registry_values@.len() == i,
            forall|k: int| 0 <= k < i ==> #[trigger] registry_values@[k]@ == places[k],
        decreases owned.registry_values@.len() - i,
    {
        let v = &owned.registry_values[i];
        registry_values.push(registry::location(v.key.as_str(), v.name.as_str()));
        i = i + 1;
    }
    assert(text::views(registry_values@) =~= places);
    let mut path_entries: Vec<PathEntryInfo> = Vec::new();
    let mut i: usize = 0;
    while i < owned.path_entries.len()
        invariant
            i <= owned.path_entries@.len(),
            path_entries@.len() == i,
            forall|k: int|
                0 <= k < i ==> (#[trigger] path_entries@[k]).hive_key@
                    == owned.path_entries@[k].hive_key@ && path_entries@[k].entry@
                    == owned.path_entries@[k].raw@ && path_entries@[k].pre_existed
                    == owned.path_entries@[k].pre_existed,
        decreases owned.path_entries@.len() - i,
    {
        let e = &owned.path_entries[i];
        path_entries.push(
            PathEntryInfo {
                hive_key: e.hive_key.clone(),
                entry: e.raw.clone(),
                pre_existed: e.pre_existed,
            },
        );
        i = i + 1;
    }
    let ghost links = owned.shortcuts@.map_values(|s: OwnedShortcut| s.path@);
    let mut shortcuts: Vec<String> = Vec::new();
    let mut i: usize = 0;
    while i < owned.shortcuts.len()
        invariant
            i <= owned.shortcuts@.len(),
            links == owned.shortcuts@.map_values(|s: OwnedShortcut| s.path@),
            shortcuts@.len() == i,
            forall|k: int| 0 <= k < i ==> #[trigger] shortcuts@[k]@ == links[k],
        decreases owned.shortcuts@.len() - i,
    {
        shortcuts.push(owned.shortcuts[i].path.clone());
        i = i + 1;
    }
    assert(text::views(shortcuts@) =~= links);
    let mut environment_variables: Vec<EnvironmentVariableInfo> = Vec::new();
    let mut i: usize = 0;
    while i < owned.environment_variables.len()
        invariant
            i <= owned.environment_variables@.len(),
            environment_variables@.len() == i,
            forall|k: int|
                0 <= k < i ==> (#[trigger] environment_variables@[k]).hive_key@
                    == owned.environment_variables@[k].hive_key@ && environment_variables@[k].name@
                    == owned.environment_variables@[k].name@ && environment_variables@[k].pre_existed
                    == owned.environment_variables@[k].pre_existed,
        decreases owned.environment_variables@.len() - i,
    {
        let v = &owned.environment_variables[i];
        environment_variables.push(
            EnvironmentVariableInfo {
                hive_key: v.hive_key.clone(),
                name: v.name.clone(),
                pre_existed: v.pre_existed,
            },
        );
        i = i + 1;
    }
    let ghost names = owned.firewall_rules@.map_values(|f: OwnedFirewallRule| f.name@);
    let mut firewall_rules: Vec<String> = Vec::new();
    let mut i: usize = 0;
    while i < owned.firewall_rules.len()
        invariant
            i <= owned.firewall_rules@.len(),
            names == owned.firewall_rules@.map_values(|f: OwnedFirewallRule| f.name@),
            firewall_rules@.len() == i,
            forall|k: int| 0 <= k < i ==> #[trigger] firewall_rules@[k]@ == names[k],
        decreases owned.firewall_rules@.len() - i,
    {
        firewall_rules.push(owned.firewall_rules[i].name.clone());
        i = i + 1;
    }
    assert(text::views(firewall_rules@) =~= names);
    let mut actions: Vec<OwnedActionInfo> = Vec::new();
    let mut i: usize = 0;
    while i < owned.actions.len()
        invariant
            i <= owned.actions@.len(),
            actions@.len() == i,
            forall|k: int|
                0 <= k < i ==> (#[trigger] actions@[k]).name@ == owned.actions@[k].name@
                    && actions@[k].phase@ == owned.actions@[k].phase@ && text::option_view(
                    actions@[k].sha256,
                ) == text::option_view(owned.actions@[k].artifact_sha256) && text::option_view(
                    actions@[k].file_name,
                ) == text::option_view(owned.actions@[k].artifact_file),
        decreases owned.actions@.len() - i,
    {
        let a = &owned.actions[i];
        actions.push(
            OwnedActionInfo {
                name: a.name.clone(),
                phase: a.phase.clone(),
                sha256: a.artifact_sha256.clone(),
                file_name: a.artifact_file.clone(),
            },
        );
        i = i + 1;
    }
    OwnedResources {
        options,
        registration_key: owned.registration_key.clone(),
        registry_values,
        path_entries,
        shortcuts,
        environment_variables,
        firewall_rules,
        actions,
    }
}

/// Whether a report describes what the state database holds.
pub open spec fn tells_state(
    r: InspectReport,
    p: Package,
    state: Option<State>,
    integrations: Seq<verify::StatusView>,
    state_db: Seq<char>,
) -> bool {
    &&& r.findings@.len() == 0
    &&& match state {
        None => r.installation is None && r.owned is None && r.transaction is None
            && r.integrations@.len() == 0,
        Some(state) => {
            &&& match state.installation {
                None => r.installation is None && r.owned is None && r.integrations@.len() == 0,
                Some(row) => {
                    &&& r.installation matches Some(info)
                    &&& verify::describes(info, row, state.file_count, state_db)
                    &&& r.owned matches Some(owned)
                    &&& lists_owned(owned, state.owned, state.options.listed())
                    &&& text::views(r.integrations@) == integrations
                },
            }
            &&& match (r.transaction, state.open) {
                (Some(told), Some((txn, direction))) => verify::tells(told, txn, Some(direction)),
                (None, None) => true,
                _ => false,
            }
        },
    }
}

/// Whether a report says of the package what holds whatever the database
/// holds: the package, its dependencies on this machine, and the installations
/// of the product.
pub open spec fn tells_product(
    r: InspectReport,
    p: Package,
    existing: Seq<ExistingInstallation>,
    machine: Machine,
) -> bool {
    &&& r.schema == SCHEMA
    &&& tells_package(r.package, p)
    &&& r.installations@ == existing
    &&& r.dependencies@.len() == p.metadata.dependencies@.len()
    &&& forall|i: int|
        0 <= i < r.dependencies@.len() ==> (dependency::looks(
            p.metadata.dependencies@[i],
            machine,
        ) matches Ok(found) && dependency::is_status(
            #[trigger] r.dependencies@[i],
            p.metadata.dependencies@[i],
            found,
        ))
}

/// Whether every dependency can be looked for.
pub open spec fn all_look(p: Package, machine: Machine) -> bool {
    forall|i: int|
        0 <= i < p.metadata.dependencies@.len() ==> dependency::looks(
            #[trigger] p.metadata.dependencies@[i],
            machine,
        ) is Ok
}

/// The declared integrations of what the database holds.
pub open spec fn integrations_of(p: Package, state: Option<State>, machine: Machine) -> Result<
    Seq<verify::StatusView>,
    ErrorView,
> {
    match state {
        Some(state) => match state.installation {
            Some(row) => verify::statuses(
                p.metadata,
                row,
                state.owned,
                state.options@,
                machine,
            ),
            None => Ok(Seq::empty()),
        },
        None => Ok(Seq::empty()),
    }
}

/// Describes the package and whatever the machine holds for it. `existing`
/// lists every installation of the product, in either scope.
pub fn inspect(
    p: &Package,
    options: &RunOptions,
    existing: Vec<ExistingInstallation>,
    database: &Result<Option<State>, Error>,
    machine: &Machine,
) -> (r: Result<InspectReport, Error>)
    ensures
        !all_look(*p, *machine) ==> (r matches Err(e) && dependency::first_unlookable(
            p.metadata.dependencies@,
            *machine,
            e@,
        )),
        all_look(*p, *machine) ==> match package::resolved(*p, *options, *machine) {
            Err(e) => (r matches Err(x) && x@ == e),
            Ok(roots) => match *database {
                Err(e) => if verify::is_unreadable(e@) {
                    r matches Ok(report) && tells_product(report, *p, existing@, *machine)
                        && report.installation is None && report.owned is None
                        && report.transaction is None && report.integrations@.len() == 0
                        && text::views(report.findings@) == seq![
                        FindingView { code: e@.code, path: None, detail: Some(e@.message) },
                    ]
                } else {
                    r matches Err(x) && x@ == e@
                },
                Ok(state) => match integrations_of(*p, state, *machine) {
                    Err(e) => (r matches Err(x) && x@ == e),
                    Ok(integrations) => (r matches Ok(report) && tells_product(
                        report,
                        *p,
                        existing@,
                        *machine,
                    ) && tells_state(report, *p, state, integrations, roots.state_db)),
                },
            },
        },
{
    let dependencies = dependency::statuses(p, machine)?;
    let mut report = InspectReport {
        schema: SCHEMA,
        package: info(p),
        installation: None,
        owned: None,
        transaction: None,
        installations: existing,
        dependencies,
        integrations: Vec::new(),
        findings: Vec::new(),
    };
    assert forall|i: int| 0 <= i < p.metadata.dependencies@.len() implies dependency::looks(
        #[trigger] p.metadata.dependencies@[i],
        *machine,
    ) is Ok by {
        assert(dependency::is_status(
            report.dependencies@[i],
            p.metadata.dependencies@[i],
            dependency::looks(p.metadata.dependencies@[i], *machine)->Ok_0,
        ));
    }
    let roots = package::resolve_roots(p, options, machine)?;
    match database {
        Ok(Some(state)) => {
            match &state.installation {
                Some(row) => {
                    report.integrations = verify::integration_statuses(
                        &p.metadata,
                        row,
                        &state.owned,
                        &state.options,
                        machine,
                    )?;
                    report.installation = Some(
                        verify::installation_info(row, state.file_count, roots.state_db.as_str()),
                    );
                    report.owned = Some(owned_resources(&state.owned, &state.options));
                },
                None => {},
            }
            match &state.open {
                Some((txn, direction)) => {
                    report.transaction = Some(verify::transaction_info(txn, Some(*direction)));
                },
                None => {},
            }
        },
        Ok(None) => {},
        Err(err) => {
            if verify::unreadable_state(err) {
                report.findings.push(Finding::plain(err.code, err.message.as_str()));
                assert(text::views(report.findings@) =~= seq![
                    FindingView { code: err@.code, path: None, detail: Some(err@.message) },
                ]);
            } else {
                return Err(err.copy());
            }
        },
    }
    Ok(report)
}

}
