use tigersetup_engine::action::plan::ActionPlan;
use tigersetup_engine::machine::{
    Data, FileSeen, KeyPath, Link, LinkInspection, LinkSeen, Machine, ValueSeen,
};
use tigersetup_engine::metadata::{
    AppPath, ContextMenuTarget, ContextMenuVerb, Directory, File, FileAssociation, InstallOption,
    Metadata, OptionChoice, OptionKind, OptionValue, PathEntry, Predicate, RegistryKind,
    RegistryRoot, RegistryValue, Scope, UrlProtocol,
};
use tigersetup_engine::plan::desired::{desired, effective_options, Desired};
use tigersetup_engine::plan::files::{Payload, PayloadEntry};
use tigersetup_engine::plan::operation::RESTORE_ABSENT;
use tigersetup_engine::plan::reconcile::{reconcile, Plan, Reconcile};
use tigersetup_engine::plan::target::{absolute, to_relative};
use tigersetup_engine::report::Finding;
use tigersetup_engine::resource::integration;
use tigersetup_engine::resource::path::normalize;
use tigersetup_engine::resource::predicate::Options;
use tigersetup_engine::resource::registry::DesiredValue;
use tigersetup_engine::resource::shortcut::DesiredShortcut;
use tigersetup_engine::scope::locations;
use tigersetup_engine::state::installation::{
    Owned, OwnedDirectory, OwnedFile, OwnedPathEntry, OwnedRegistryKey, OwnedRegistryValue,
    OwnedShortcut,
};
use tigersetup_engine::state::journal::OpKind;

fn metadata() -> Metadata {
    let mut m = Metadata::default();
    m.package.id = "IT-Tiger.T".into();
    m.package.name = "T".into();
    m.package.version = "1.0.0".into();
    m.package.publisher = "p".into();
    m.install.scopes = vec![Scope::User];
    m.install.user_root = "%LOCALAPPDATA%\\Programs\\T".into();
    m.files = vec![
        File { path: "b/deep/z.txt".into(), size: 1, entry: "b/deep/z.txt".into(), when: None },
        File { path: "a.txt".into(), size: 2, entry: "a.txt".into(), when: None },
    ];
    m.directories = vec![Directory { path: "b".into() }, Directory { path: "b/deep".into() }];
    m
}

fn options(entries: &[(&str, OptionValue)]) -> Options {
    let mut o = Options::new();
    for (name, value) in entries {
        o.insert(name, value.clone());
    }
    o
}

fn key(text: &str) -> KeyPath {
    KeyPath::parse(text).unwrap()
}

fn write(m: &mut Machine, key: &KeyPath, name: &str, data: Data) {
    if !m.keys.iter().any(|k| k == key) {
        m.keys.push(key.clone());
    }
    m.values.retain(|v| !(v.key == *key && v.name == name));
    m.values.push(ValueSeen { key: key.clone(), name: name.into(), data });
}

fn put(m: &mut Machine, path: &str, contents: &str) {
    m.files.retain(|f| f.path != path);
    m.files.push(FileSeen { path: path.into(), sha256: hash(contents), size: 1, modified: None });
}

fn hash(contents: &str) -> String {
    format!("hash of {contents}")
}

fn owned_file(path: &str, contents: &str) -> OwnedFile {
    OwnedFile {
        path: path.into(),
        sha256: hash(contents),
        size: contents.len() as u64,
        modified: None,
    }
}

fn owned_directory(path: &str, created: bool) -> OwnedDirectory {
    OwnedDirectory { path: path.into(), created }
}

fn owned_value(key: &KeyPath, name: &str, kind: &str, data: &str) -> OwnedRegistryValue {
    OwnedRegistryValue {
        key: key.to_string(),
        name: name.into(),
        kind: kind.into(),
        data: data.into(),
        pre_existed: false,
        previous_kind: None,
        previous_data: None,
    }
}

fn summary(plan: &Plan) -> Vec<(OpKind, String)> {
    plan.operations.iter().map(|op| (op.kind, op.target.clone())).collect()
}

struct Input<'a> {
    desired: Option<&'a Desired>,
    owned: &'a Owned,
    payload: Option<&'a Payload>,
    machine: &'a Machine,
    scope: Scope,
    inspect_files: bool,
    repair: bool,
}

const ROOT: &str = "C:\\dir\\root";

fn planned(input: Input) -> Plan {
    reconcile(&Reconcile {
        desired: input.desired,
        owned: input.owned,
        install_root: ROOT,
        payload: input.payload,
        machine: input.machine,
        scope: input.scope,
        inspect_files: input.inspect_files,
        repair: input.repair,
        shortcut_folders: &vec!["C:\\dir".to_string()],
        firewall: false,
        actions: &ActionPlan::default(),
    })
    .unwrap()
}

#[test]
fn stored_paths_must_stay_under_the_install_root() {
    let root = "C:\\Programs\\T";
    assert_eq!(absolute(root, "").unwrap(), root);
    assert_eq!(absolute(root, "bin\\x.dll").unwrap(), "C:\\Programs\\T\\bin\\x.dll");
    for bad in [
        "bin\\..\\..\\Windows\\x.dll",
        "..\\elsewhere",
        "C:\\Windows\\x.dll",
        "\\\\server\\share\\x",
        "\\abs",
        "bin\\.\\x.dll",
        "bin\\nul",
        "bin\\x.dll ",
    ] {
        assert_eq!(absolute(root, bad).unwrap_err().code, "path_outside_root", "{bad:?}");
    }
    assert_eq!(to_relative("b/deep/z.txt"), "b\\deep\\z.txt");
}

#[test]
fn effective_options_layer_explicit_over_recorded_over_default() {
    let mut metadata = metadata();
    metadata.options = vec![
        InstallOption { name: "path".into(), default: true, ..Default::default() },
        InstallOption { name: "desktop-shortcut".into(), default: false, ..Default::default() },
    ];
    let recorded = options(&[("path", OptionValue::Bool(false))]);
    let explicit = options(&[("desktop-shortcut", OptionValue::Bool(true))]);
    let effective = effective_options(&metadata, &recorded, &explicit).unwrap();
    assert!(!effective.get("path").unwrap().is_on(), "recorded wins over the default");
    assert!(effective.get("desktop-shortcut").unwrap().is_on(), "explicit wins");
    let empty = Options::new();
    assert!(effective_options(&metadata, &empty, &empty).unwrap().get("path").unwrap().is_on());
    let unknown = options(&[("nope", OptionValue::Bool(true))]);
    assert_eq!(
        effective_options(&metadata, &empty, &unknown).unwrap_err().code,
        "option_unknown"
    );
}

#[test]
fn choice_options_layer_and_refuse_values_they_do_not_take() {
    let mut metadata = metadata();
    metadata.options = vec![InstallOption {
        name: "path-mode".into(),
        kind: OptionKind::Choice,
        choices: vec![
            OptionChoice { value: "none".into() },
            OptionChoice { value: "command".into() },
        ],
        default_choice: "command".into(),
        ..Default::default()
    }];
    let choice = |v: &str| options(&[("path-mode", OptionValue::Choice(v.into()))]);
    let mode = |recorded: &Options, explicit: &Options| {
        effective_options(&metadata, recorded, explicit)
            .unwrap()
            .get("path-mode")
            .unwrap()
            .clone()
    };
    let empty = Options::new();
    assert_eq!(mode(&empty, &empty), OptionValue::Choice("command".into()));
    assert_eq!(mode(&choice("none"), &empty), OptionValue::Choice("none".into()));
    assert_eq!(
        mode(&empty, &choice("NONE")),
        OptionValue::Choice("none".into()),
        "an explicit value is matched case-insensitively and canonicalised"
    );
    assert_eq!(
        mode(&choice("tools"), &empty),
        OptionValue::Choice("command".into()),
        "a recorded value the package dropped falls back to the default"
    );
    assert_eq!(
        effective_options(&metadata, &empty, &choice("tools")).unwrap_err().code,
        "option_value_invalid"
    );
    let bool_for_choice = options(&[("path-mode", OptionValue::Bool(true))]);
    assert_eq!(
        effective_options(&metadata, &empty, &bool_for_choice).unwrap_err().code,
        "option_value_invalid"
    );
}

#[test]
fn install_plan_orders_root_directories_files_then_resources() {
    let mut metadata = metadata();
    metadata.options.push(InstallOption {
        name: "path".into(),
        default: true,
        ..Default::default()
    });
    metadata.path_entries.push(PathEntry {
        path: "b".into(),
        option: "path".into(),
        when: None,
    });
    metadata.registry_values.push(RegistryValue {
        key: "IT Tiger\\T".into(),
        name: "InstallRoot".into(),
        kind: RegistryKind::ExpandString,
        data: "%INSTALLROOT%".into(),
        when: None,
        root: RegistryRoot::Software,
    });
    let machine = Machine::empty();
    let effective = effective_options(&metadata, &Options::new(), &Options::new()).unwrap();
    let desired = desired(
        &metadata,
        &effective,
        Scope::User,
        ROOT,
        "C:\\dir\\uninstall.exe",
        "20260907",
        &machine,
        &Owned::default(),
    )
    .unwrap();
    assert_eq!(desired.registry_values[0].data, Data::ExpandString(ROOT.into()));
    assert_eq!(desired.path_entries, vec![format!("{ROOT}\\b")]);
    let plan = planned(Input {
        desired: Some(&desired),
        owned: &Owned::default(),
        payload: None,
        machine: &machine,
        scope: Scope::User,
        inspect_files: false,
        repair: false,
    });
    let kinds: Vec<OpKind> = plan.operations.iter().map(|op| op.kind).collect();
    assert_eq!(
        kinds,
        vec![
            OpKind::CreateDirectory,
            OpKind::CreateDirectory,
            OpKind::CreateDirectory,
            OpKind::InstallFile,
            OpKind::InstallFile,
            OpKind::CreateRegistryKey,
            OpKind::CreateRegistryKey,
            OpKind::SetRegistryValue,
            OpKind::AddPathEntry,
            OpKind::CreateRegistryKey,
            OpKind::SetRegistryValue,
            OpKind::SetRegistryValue,
            OpKind::SetRegistryValue,
            OpKind::SetRegistryValue,
            OpKind::SetRegistryValue,
            OpKind::SetRegistryValue,
            OpKind::SetRegistryValue,
            OpKind::SetRegistryValue,
            OpKind::SetRegistryValue,
            OpKind::SetRegistryValue,
            OpKind::SetRegistryValue,
            OpKind::SetRegistryValue,
        ]
    );
    assert_eq!(plan.operations[3].target, "b\\deep\\z.txt");
    assert_eq!(plan.operations[3].expected_size, Some(1));
    assert_eq!(plan.operations[5].target, "HKCU\\Software\\IT Tiger");
    assert_eq!(plan.operations[6].target, "HKCU\\Software\\IT Tiger\\T");
    assert_eq!(
        plan.operations[8].value_data.as_deref(),
        Some(format!("{ROOT}\\b").as_str())
    );
    assert_eq!(
        plan.operations[9].target,
        "HKCU\\Software\\Microsoft\\Windows\\CurrentVersion\\Uninstall\\IT-Tiger.T"
    );
    assert_eq!(plan.operations[10].value_name.as_deref(), Some("DisplayName"));
    assert!(plan.findings.is_empty());
}

#[test]
fn uninstall_plan_preserves_modified_files_and_their_directories() {
    let mut m = Machine::empty();
    for d in ["C:\\dir\\root", "C:\\dir\\root\\b", "C:\\dir\\root\\b\\deep", "C:\\dir\\root\\c"] {
        m.directories.push(d.into());
    }
    put(&mut m, "C:\\dir\\root\\a.txt", "aa");
    put(&mut m, "C:\\dir\\root\\b\\deep\\z.txt", "changed");
    let owned = Owned {
        files: vec![
            owned_file("a.txt", "aa"),
            owned_file("b\\deep\\z.txt", "z"),
            owned_file("c\\gone.txt", "g"),
        ],
        directories: vec![
            owned_directory("", true),
            owned_directory("b", true),
            owned_directory("b\\deep", true),
            owned_directory("c", false),
        ],
        ..Default::default()
    };
    let plan = planned(Input {
        desired: None,
        owned: &owned,
        payload: None,
        machine: &m,
        scope: Scope::User,
        inspect_files: true,
        repair: false,
    });
    assert_eq!(summary(&plan), vec![(OpKind::RemoveFile, "a.txt".to_string())]);
    let codes: Vec<&str> = plan.findings.iter().map(|f| f.code).collect();
    assert_eq!(codes, vec!["file_modified_preserved", "file_missing"]);
}

#[test]
fn uninstall_plan_removes_resources_then_files_then_directories() {
    let mut m = Machine::empty();
    for d in ["C:\\dir\\root", "C:\\dir\\root\\b", "C:\\dir\\root\\b\\deep"] {
        m.directories.push(d.into());
    }
    put(&mut m, "C:\\dir\\root\\b\\deep\\z.txt", "z");
    let product = key("HKCU\\Software\\IT Tiger\\T");
    let registration =
        key("HKCU\\Software\\Microsoft\\Windows\\CurrentVersion\\Uninstall\\IT-Tiger.T");
    write(&mut m, &product, "InstallRoot", Data::ExpandString(ROOT.into()));
    write(&mut m, &product, "Edited", Data::String("user".into()));
    write(&mut m, &registration, "DisplayName", Data::String("T".into()));
    write(
        &mut m,
        &key("HKCU\\Environment"),
        "Path",
        Data::ExpandString(format!("C:\\Other;{ROOT}\\b")),
    );
    let link = "C:\\dir\\Programs\\T.lnk";
    let foreign = "C:\\dir\\Programs\\Foreign.lnk";
    m.links.push(LinkSeen {
        path: link.into(),
        found: LinkInspection::Link(Link {
            target: format!("{ROOT}\\b\\deep\\z.txt"),
            ..Default::default()
        }),
    });
    m.links.push(LinkSeen {
        path: foreign.into(),
        found: LinkInspection::Link(Link {
            target: "C:\\Windows\\notepad.exe".into(),
            ..Default::default()
        }),
    });
    let own = format!("{ROOT}\\b\\deep\\z.txt");
    let owned = Owned {
        files: vec![owned_file("b\\deep\\z.txt", "z")],
        directories: vec![
            owned_directory("", true),
            owned_directory("b", true),
            owned_directory("b\\deep", true),
        ],
        registry_keys: vec![
            OwnedRegistryKey { key: "HKCU\\Software\\IT Tiger".into(), created: false },
            OwnedRegistryKey { key: product.to_string(), created: true },
            OwnedRegistryKey { key: registration.to_string(), created: true },
        ],
        registry_values: vec![
            owned_value(&product, "InstallRoot", "expand_string", ROOT),
            owned_value(&product, "Edited", "string", "original"),
            owned_value(&product, "Gone", "dword", "1"),
            owned_value(&registration, "DisplayName", "string", "T"),
        ],
        path_entries: vec![
            OwnedPathEntry {
                hive_key: "HKCU\\Environment".into(),
                raw: format!("{ROOT}\\b"),
                normalized: normalize(&format!("{ROOT}\\b"), &m),
                pre_existed: false,
                added: true,
            },
            OwnedPathEntry {
                hive_key: "HKCU\\Environment".into(),
                raw: "C:\\Other".into(),
                normalized: normalize("C:\\Other", &m),
                pre_existed: true,
                added: false,
            },
        ],
        shortcuts: vec![
            OwnedShortcut { path: link.into(), target: own.clone() },
            OwnedShortcut { path: foreign.into(), target: own },
            OwnedShortcut { path: "C:\\dir\\Programs\\Missing.lnk".into(), target: ROOT.into() },
        ],
        registration_key: Some(registration.to_string()),
        ..Default::default()
    };
    let plan = planned(Input {
        desired: None,
        owned: &owned,
        payload: None,
        machine: &m,
        scope: Scope::User,
        inspect_files: true,
        repair: false,
    });
    assert_eq!(
        summary(&plan),
        vec![
            (OpKind::RemoveRegistryValue, registration.to_string()),
            (OpKind::RemoveRegistryKey, registration.to_string()),
            (OpKind::RemoveShortcut, link.to_string()),
            (OpKind::RemovePathEntry, "HKCU\\Environment".to_string()),
            (OpKind::RemoveRegistryValue, product.to_string()),
            (OpKind::RemoveRegistryKey, product.to_string()),
            (OpKind::RemoveFile, "b\\deep\\z.txt".to_string()),
            (OpKind::RemoveDirectory, "b\\deep".to_string()),
            (OpKind::RemoveDirectory, "b".to_string()),
            (OpKind::RemoveDirectory, "".to_string()),
        ]
    );
    assert_eq!(
        plan.operations[3].value_data.as_deref(),
        Some(format!("{ROOT}\\b").as_str())
    );
    assert_eq!(plan.operations[4].value_name.as_deref(), Some("InstallRoot"));
    let mut codes: Vec<&str> = plan.findings.iter().map(|f| f.code).collect();
    codes.sort();
    assert_eq!(
        codes,
        vec![
            "registry_value_missing",
            "registry_value_modified_preserved",
            "shortcut_missing",
            "shortcut_modified_preserved",
        ]
    );
}

fn bare_desired(scope: Scope, registration: &str) -> Desired {
    Desired {
        locations: locations(scope),
        directories: vec![],
        files: vec![],
        registry_values: vec![],
        path_entries: vec![],
        shortcuts: vec![],
        registration_key: key(registration),
        registration_values: vec![],
        environment_variables: vec![],
        firewall_rules: vec![],
        integrations: vec![],
        findings: vec![],
    }
}

#[test]
fn reconcile_keeps_present_resources_and_adds_missing_ones() {
    let mut m = Machine::empty();
    let lookalike = format!("{ROOT}\\b\\");
    write(&mut m, &key("HKCU\\Environment"), "Path", Data::ExpandString(lookalike));
    let product = key("HKCU\\Software\\IT Tiger\\T");
    m.keys.push(key("HKCU\\Software\\IT Tiger"));
    write(&mut m, &product, "InstallRoot", Data::ExpandString(ROOT.into()));

    let mut desired = bare_desired(
        Scope::User,
        "HKCU\\Software\\Microsoft\\Windows\\CurrentVersion\\Uninstall\\IT-Tiger.T",
    );
    desired.registry_values = vec![
        DesiredValue {
            key: product.clone(),
            name: "InstallRoot".into(),
            data: Data::ExpandString(ROOT.into()),
        },
        DesiredValue {
            key: product.clone(),
            name: "Version".into(),
            data: Data::String("1.0.0".into()),
        },
    ];
    desired.path_entries = vec![format!("{ROOT}\\b")];
    desired.shortcuts = vec![DesiredShortcut {
        path: "C:\\dir\\Programs\\T.lnk".into(),
        link: Link { target: format!("{ROOT}\\app.exe"), ..Default::default() },
    }];
    let owned = Owned {
        registry_keys: vec![OwnedRegistryKey { key: product.to_string(), created: true }],
        ..Default::default()
    };
    let plan = planned(Input {
        desired: Some(&desired),
        owned: &owned,
        payload: None,
        machine: &m,
        scope: Scope::User,
        inspect_files: true,
        repair: false,
    });
    assert_eq!(
        summary(&plan),
        vec![
            (OpKind::KeepRegistryKey, product.to_string()),
            (OpKind::KeepRegistryValue, product.to_string()),
            (OpKind::SetRegistryValue, product.to_string()),
            (OpKind::KeepPathEntry, "HKCU\\Environment".to_string()),
            (OpKind::CreateShortcut, "C:\\dir\\Programs\\T.lnk".to_string()),
            (OpKind::CreateRegistryKey, desired.registration_key.to_string()),
        ]
    );
    assert_eq!(
        plan.operations[0].previous_existed,
        Some(false),
        "an owned key created by us stays created"
    );
    assert_eq!(
        plan.operations[3].previous_existed,
        Some(true),
        "the lookalike pre-existed: never claimed"
    );
    assert_eq!(plan.counts.resource_operations, 3);
}

#[test]
fn explicit_registry_values_carry_their_pre_installation_state() {
    let mut m = Machine::empty();
    let file_system = key("HKLM\\SYSTEM\\CurrentControlSet\\Control\\FileSystem");
    for existing in [
        "HKLM\\SYSTEM",
        "HKLM\\SYSTEM\\CurrentControlSet",
        "HKLM\\SYSTEM\\CurrentControlSet\\Control",
    ] {
        m.keys.push(key(existing));
    }
    write(&mut m, &file_system, "LongPathsEnabled", Data::Dword(0));
    let fresh = key("HKLM\\SYSTEM\\TigerSetupTest\\Sub");
    let mut desired = bare_desired(
        Scope::Machine,
        "HKLM\\Software\\Microsoft\\Windows\\CurrentVersion\\Uninstall\\IT-Tiger.T",
    );
    desired.registry_values = vec![
        DesiredValue {
            key: file_system.clone(),
            name: "LongPathsEnabled".into(),
            data: Data::Dword(1),
        },
        DesiredValue {
            key: fresh.clone(),
            name: "Marker".into(),
            data: Data::String("x".into()),
        },
    ];
    let reconcile_with = |m: &Machine, desired: Option<&Desired>, owned: &Owned, repair: bool| {
        planned(Input {
            desired,
            owned,
            payload: None,
            machine: m,
            scope: Scope::Machine,
            inspect_files: true,
            repair,
        })
    };

    let plan = reconcile_with(&m, Some(&desired), &Owned::default(), false);
    assert_eq!(
        summary(&plan),
        vec![
            (OpKind::CreateRegistryKey, "HKLM\\SYSTEM\\TigerSetupTest".to_string()),
            (OpKind::CreateRegistryKey, fresh.to_string()),
            (OpKind::SetRegistryValue, file_system.to_string()),
            (OpKind::SetRegistryValue, fresh.to_string()),
            (OpKind::CreateRegistryKey, desired.registration_key.to_string()),
        ]
    );
    assert_eq!(plan.operations[2].restore_kind, None);

    write(&mut m, &file_system, "LongPathsEnabled", Data::Dword(1));
    m.keys.push(key("HKLM\\SYSTEM\\TigerSetupTest"));
    write(&mut m, &fresh, "Marker", Data::String("x".into()));
    let mut long_paths = owned_value(&file_system, "LongPathsEnabled", "dword", "1");
    long_paths.pre_existed = true;
    long_paths.previous_kind = Some("dword".into());
    long_paths.previous_data = Some("0".into());
    let owned = Owned {
        registry_keys: vec![
            OwnedRegistryKey { key: "HKLM\\SYSTEM\\TigerSetupTest".into(), created: true },
            OwnedRegistryKey { key: fresh.to_string(), created: true },
        ],
        registry_values: vec![long_paths, owned_value(&fresh, "Marker", "string", "x")],
        ..Default::default()
    };
    let plan = reconcile_with(&m, Some(&desired), &owned, false);
    let keep = &plan.operations[2];
    assert_eq!(keep.kind, OpKind::KeepRegistryValue);
    assert_eq!(keep.restore_kind.as_deref(), Some("dword"));
    assert_eq!(keep.restore_data.as_deref(), Some("0"));
    let marker = plan
        .operations
        .iter()
        .find(|op| op.kind == OpKind::KeepRegistryValue && op.target == fresh.to_string())
        .unwrap();
    assert_eq!(marker.restore_kind.as_deref(), Some(RESTORE_ABSENT));

    desired.registry_values[1].data = Data::String("y".into());
    let plan = reconcile_with(&m, Some(&desired), &owned, false);
    let set = plan
        .operations
        .iter()
        .find(|op| op.target == fresh.to_string() && op.value_name.is_some())
        .unwrap();
    assert_eq!(set.kind, OpKind::SetRegistryValue);
    assert_eq!(set.restore_kind.as_deref(), Some(RESTORE_ABSENT));

    write(&mut m, &file_system, "LongPathsEnabled", Data::Dword(0));
    let plan = reconcile_with(&m, Some(&desired), &owned, false);
    assert_eq!(plan.operations[2].kind, OpKind::KeepRegistryValue);
    assert_eq!(plan.operations[2].value_data.as_deref(), Some("1"));
    assert_eq!(
        plan.findings.iter().map(|f| f.code).collect::<Vec<_>>(),
        vec!["registry_value_modified_preserved"]
    );
    let plan = reconcile_with(&m, Some(&desired), &owned, true);
    assert_eq!(plan.operations[2].kind, OpKind::SetRegistryValue);
    assert!(plan.findings.is_empty());
    write(&mut m, &file_system, "LongPathsEnabled", Data::Dword(1));

    let plan = reconcile_with(&m, None, &owned, false);
    let removals: Vec<(OpKind, String, Option<String>)> = plan
        .operations
        .iter()
        .map(|op| (op.kind, op.target.clone(), op.restore_kind.clone()))
        .collect();
    assert_eq!(
        removals,
        vec![
            (OpKind::RemoveRegistryValue, file_system.to_string(), Some("dword".into())),
            (OpKind::RemoveRegistryValue, fresh.to_string(), Some(RESTORE_ABSENT.into())),
            (OpKind::RemoveRegistryKey, fresh.to_string(), None),
            (OpKind::RemoveRegistryKey, "HKLM\\SYSTEM\\TigerSetupTest".to_string(), None),
        ]
    );
    assert_eq!(plan.operations[0].restore_data.as_deref(), Some("0"));

    write(&mut m, &fresh, "Marker", Data::String("y".into()));
    let plan = reconcile_with(&m, Some(&desired), &Owned::default(), false);
    let keep = plan
        .operations
        .iter()
        .find(|op| op.kind == OpKind::KeepRegistryValue && op.target == fresh.to_string())
        .unwrap();
    assert_eq!(keep.restore_kind.as_deref(), Some("string"));
    assert_eq!(keep.restore_data.as_deref(), Some("y"));
}

#[test]
fn upgrade_plan_keeps_replaces_adds_and_removes() {
    let mut m = Machine::empty();
    for d in ["C:\\dir\\root", "C:\\dir\\root\\old", "C:\\dir\\root\\lib"] {
        m.directories.push(d.into());
    }
    put(&mut m, "C:\\dir\\root\\same.txt", "same");
    put(&mut m, "C:\\dir\\root\\lib\\changed.dll", "version a");
    put(&mut m, "C:\\dir\\root\\old\\gone.txt", "gone");
    put(&mut m, "C:\\dir\\root\\old\\edited.txt", "user edit");
    let owned = Owned {
        files: vec![
            owned_file("same.txt", "same"),
            owned_file("lib\\changed.dll", "version a"),
            owned_file("old\\gone.txt", "gone"),
            owned_file("old\\edited.txt", "original"),
        ],
        directories: vec![
            owned_directory("", false),
            owned_directory("lib", true),
            owned_directory("old", true),
        ],
        ..Default::default()
    };
    let entries = [
        ("same.txt", "same"),
        ("lib/changed.dll", "version b!"),
        ("lib/new.dll", "new"),
        ("plugins/p.bin", "p"),
    ];
    let mut metadata = metadata();
    metadata.files = entries
        .iter()
        .map(|(path, contents)| File {
            path: path.to_string(),
            size: contents.len() as u64,
            entry: path.to_string(),
            when: None,
        })
        .collect();
    metadata.directories =
        vec![Directory { path: "lib".into() }, Directory { path: "plugins".into() }];
    let payload = Payload {
        entries: entries
            .iter()
            .map(|(path, contents)| PayloadEntry {
                entry: path.to_string(),
                sha256: hash(contents),
            })
            .collect(),
    };
    let desired = desired(
        &metadata,
        &Options::new(),
        Scope::User,
        ROOT,
        "C:\\dir\\u.exe",
        "20260907",
        &m,
        &owned,
    )
    .unwrap();
    let plan = |m: &Machine, repair: bool| {
        planned(Input {
            desired: Some(&desired),
            owned: &owned,
            payload: Some(&payload),
            machine: m,
            scope: Scope::User,
            inspect_files: true,
            repair,
        })
    };
    let first = plan(&m, false);
    let files: Vec<(OpKind, String)> = summary(&first)
        .into_iter()
        .filter(|(kind, _)| {
            matches!(
                kind,
                OpKind::KeepDirectory
                    | OpKind::CreateDirectory
                    | OpKind::KeepFile
                    | OpKind::InstallFile
                    | OpKind::RemoveFile
                    | OpKind::RemoveDirectory
            )
        })
        .collect();
    assert_eq!(
        files,
        vec![
            (OpKind::KeepDirectory, "".into()),
            (OpKind::KeepDirectory, "lib".into()),
            (OpKind::CreateDirectory, "plugins".into()),
            (OpKind::KeepFile, "same.txt".into()),
            (OpKind::InstallFile, "lib\\changed.dll".into()),
            (OpKind::InstallFile, "lib\\new.dll".into()),
            (OpKind::InstallFile, "plugins\\p.bin".into()),
            (OpKind::RemoveFile, "old\\gone.txt".into()),
        ],
        "old\\edited.txt is preserved, so old\\ is not removed"
    );
    assert_eq!(first.operations[0].previous_existed, Some(true));
    assert_eq!(first.operations[1].previous_existed, Some(false));
    assert_eq!(first.operations[3].applied_sha256, Some(hash("same")));
    let c = &first.counts;
    assert_eq!((c.kept, c.replaced, c.added, c.removed), (1, 1, 2, 1));
    assert_eq!((c.directories_created, c.directories_removed), (1, 0));
    assert_eq!(first.findings.len(), 1);
    assert_eq!(first.findings[0].code, "file_modified_preserved");
    assert!(
        first.operations.iter().any(|op| op.kind == OpKind::CreateRegistryKey),
        "the registration is created last"
    );

    let repaired = plan(&m, true);
    assert_eq!(repaired.counts.repaired, 1);
    assert!(repaired.findings.iter().any(|f| f.code == "file_repaired"
        && f.path.as_deref() == Some("C:\\dir\\root\\lib\\changed.dll")));

    m.files.retain(|f| f.path != "C:\\dir\\root\\old\\edited.txt");
    let later = plan(&m, false);
    let last = later.operations.last().unwrap();
    assert_eq!((last.kind, last.target.as_str()), (OpKind::RemoveDirectory, "old"));
    assert_eq!(later.findings[0].code, "file_missing");
    assert_eq!(later.counts.directories_removed, 1);
}

fn integrated() -> Metadata {
    let mut m = Metadata::default();
    m.package.id = "IT-Tiger.T".into();
    m.package.name = "TestApp".into();
    m.package.version = "1.0.0".into();
    m.package.publisher = "IT Tiger".into();
    m.package.description = "A test".into();
    m.file_associations = vec![FileAssociation {
        prog_id: "TestApp.Document".into(),
        extensions: vec![".tigertest".into()],
        description: "Tiger test document".into(),
        icon: String::new(),
        executable: "bin/app.exe".into(),
        arguments: String::new(),
        when: Some(Predicate { option: "assoc".into(), equals: "true".into() }),
    }];
    m.url_protocols = vec![UrlProtocol {
        scheme: "tigertest".into(),
        prog_id: String::new(),
        description: "Tiger test link".into(),
        icon: String::new(),
        executable: "bin/app.exe".into(),
        arguments: "--open \"%1\"".into(),
        when: None,
    }];
    m.app_paths =
        vec![AppPath { executable: "bin/app.exe".into(), add_directory: true, when: None }];
    m.context_menu_verbs = vec![
        ContextMenuVerb {
            target: ContextMenuTarget::Files,
            verb: "open-with-testapp".into(),
            label: "Open with TestApp".into(),
            executable: "bin/app.exe".into(),
            arguments: String::new(),
            icon: "bin/app.exe".into(),
            extensions: Vec::new(),
            when: None,
        },
        ContextMenuVerb {
            target: ContextMenuTarget::DirectoryBackground,
            verb: "testapp-here".into(),
            label: "TestApp here".into(),
            executable: "bin/app.exe".into(),
            arguments: String::new(),
            icon: String::new(),
            extensions: Vec::new(),
            when: None,
        },
    ];
    m
}

fn located(values: &[DesiredValue]) -> Vec<String> {
    values
        .iter()
        .map(|v| format!("{}\\{} = {}", v.key.to_string(), v.name, v.data.text()))
        .collect()
}

#[test]
fn integrations_compile_into_the_documented_registry_shapes() {
    let metadata = integrated();
    let locations = locations(Scope::User);
    let machine = Machine::empty();
    let compile = |on: bool| {
        integration::desired(
            &metadata,
            &options(&[("assoc", OptionValue::Bool(on))]),
            &locations,
            "C:\\P",
            &machine,
            &Owned::default(),
        )
        .unwrap()
    };
    let compiled = compile(true);
    assert!(compiled.findings.is_empty(), "{:?}", compiled.findings);
    let kinds: Vec<&str> = compiled.items.iter().map(|i| i.kind).collect();
    assert_eq!(
        kinds,
        vec![
            "file_association",
            "url_protocol",
            "app_path",
            "context_menu",
            "context_menu",
            "capabilities"
        ]
    );
    let all = located(&compiled.values());
    for expected in [
        "HKCU\\Software\\Classes\\TestApp.Document\\ = Tiger test document",
        "HKCU\\Software\\Classes\\TestApp.Document\\DefaultIcon\\ = C:\\P\\bin\\app.exe,0",
        "HKCU\\Software\\Classes\\TestApp.Document\\shell\\open\\command\\ = \"C:\\P\\bin\\app.exe\" \"%1\"",
        "HKCU\\Software\\Classes\\.tigertest\\OpenWithProgids\\TestApp.Document = ",
        "HKCU\\Software\\IT Tiger\\TestApp\\Capabilities\\FileAssociations\\.tigertest = TestApp.Document",
        "HKCU\\Software\\Classes\\TestApp.tigertest\\URL Protocol = ",
        "HKCU\\Software\\Classes\\TestApp.tigertest\\ = URL:Tiger test link",
        "HKCU\\Software\\Classes\\TestApp.tigertest\\shell\\open\\command\\ = \"C:\\P\\bin\\app.exe\" --open \"%1\"",
        "HKCU\\Software\\Classes\\tigertest\\URL Protocol = ",
        "HKCU\\Software\\IT Tiger\\TestApp\\Capabilities\\URLAssociations\\tigertest = TestApp.tigertest",
        "HKCU\\Software\\Microsoft\\Windows\\CurrentVersion\\App Paths\\app.exe\\ = C:\\P\\bin\\app.exe",
        "HKCU\\Software\\Microsoft\\Windows\\CurrentVersion\\App Paths\\app.exe\\Path = C:\\P\\bin",
        "HKCU\\Software\\Classes\\*\\shell\\open-with-testapp\\ = Open with TestApp",
        "HKCU\\Software\\Classes\\*\\shell\\open-with-testapp\\Icon = C:\\P\\bin\\app.exe",
        "HKCU\\Software\\Classes\\*\\shell\\open-with-testapp\\command\\ = \"C:\\P\\bin\\app.exe\" \"%1\"",
        "HKCU\\Software\\Classes\\Directory\\Background\\shell\\testapp-here\\command\\ = \"C:\\P\\bin\\app.exe\" \"%V\"",
        "HKCU\\Software\\IT Tiger\\TestApp\\Capabilities\\ApplicationName = TestApp",
        "HKCU\\Software\\RegisteredApplications\\TestApp = Software\\IT Tiger\\TestApp\\Capabilities",
    ] {
        assert!(all.contains(&expected.to_string()), "missing {expected}\n{all:#?}");
    }
    for value in compiled.values() {
        locations.confine_key(&value.key).unwrap();
    }

    let compiled = compile(false);
    assert!(!compiled.items[0].enabled);
    assert!(compiled.items[0].values.is_empty());
    assert!(compiled.items.iter().any(|i| i.kind == "capabilities"));
    assert!(!located(&compiled.values()).iter().any(|v| v.contains("TestApp.Document")));
}

#[test]
fn a_foreign_scheme_key_is_preserved_and_reported() {
    let metadata = integrated();
    let locations = locations(Scope::User);
    let mut m = Machine::empty();
    m.keys.push(locations.software_key("Classes\\tigertest"));
    let compiled = integration::desired(
        &metadata,
        &Options::new(),
        &locations,
        "C:\\P",
        &m,
        &Owned::default(),
    )
    .unwrap();
    assert_eq!(
        compiled.findings,
        vec![Finding::named(
            "url_protocol_scheme_in_use_preserved",
            "HKCU\\Software\\Classes\\tigertest"
        )]
    );
    let all = located(&compiled.values());
    assert!(!all.iter().any(|v| v.starts_with("HKCU\\Software\\Classes\\tigertest\\")));
    assert!(all.iter().any(|v| v.starts_with("HKCU\\Software\\Classes\\TestApp.tigertest\\")));
}

#[test]
fn a_machine_that_holds_what_is_wanted_is_left_alone() {
    let mut m = Machine::empty();
    m.directories.push(format!("{ROOT}\\b"));
    put(&mut m, &format!("{ROOT}\\b\\z.txt"), "z");
    let registration =
        "HKCU\\Software\\Microsoft\\Windows\\CurrentVersion\\Uninstall\\IT-Tiger.T";
    let product = key("HKCU\\Software\\T");
    m.keys.push(key(registration));
    write(&mut m, &product, "Root", Data::String(ROOT.into()));
    write(
        &mut m,
        &key("HKCU\\Environment"),
        "Path",
        Data::ExpandString(format!("C:\\Windows;{ROOT}\\b")),
    );
    let mut desired = bare_desired(Scope::User, registration);
    desired.directories = vec!["b".into()];
    desired.files = vec![tigersetup_engine::plan::files::DesiredFile {
        path: "b\\z.txt".into(),
        entry: "b/z.txt".into(),
        size: 1,
    }];
    desired.registry_values = vec![DesiredValue {
        key: product.clone(),
        name: "Root".into(),
        data: Data::String(ROOT.into()),
    }];
    desired.path_entries = vec![format!("{ROOT}\\b")];
    let owned = Owned {
        files: vec![owned_file("b\\z.txt", "z")],
        directories: vec![owned_directory("b", true)],
        registry_keys: vec![
            OwnedRegistryKey { key: product.to_string(), created: true },
            OwnedRegistryKey { key: registration.into(), created: true },
        ],
        registry_values: vec![owned_value(&product, "Root", "string", ROOT)],
        path_entries: vec![OwnedPathEntry {
            hive_key: "HKCU\\Environment".into(),
            raw: format!("{ROOT}\\b"),
            normalized: normalize(&format!("{ROOT}\\b"), &m),
            pre_existed: false,
            added: true,
        }],
        registration_key: Some(registration.into()),
        ..Default::default()
    };
    let payload = Payload {
        entries: vec![PayloadEntry { entry: "b/z.txt".into(), sha256: hash("z") }],
    };
    for repair in [false, true] {
        let plan = planned(Input {
            desired: Some(&desired),
            owned: &owned,
            payload: Some(&payload),
            machine: &m,
            scope: Scope::User,
            inspect_files: true,
            repair,
        });
        assert!(plan.operations.iter().all(|op| op.kind.is_keep()), "{:?}", summary(&plan));
        assert!(plan.findings.is_empty());
    }
}

#[test]
fn an_unchanged_stat_stands_for_the_recorded_hash() {
    let mut m = Machine::empty();
    m.files.push(FileSeen {
        path: format!("{ROOT}\\a.txt"),
        sha256: "read anew".into(),
        size: 1,
        modified: Some(5),
    });
    let mut owned = Owned { files: vec![owned_file("a.txt", "a")], ..Default::default() };
    let gone = |owned: &Owned, m: &Machine| {
        planned(Input {
            desired: None,
            owned,
            payload: None,
            machine: m,
            scope: Scope::User,
            inspect_files: true,
            repair: false,
        })
    };
    assert_eq!(gone(&owned, &m).findings[0].code, "file_modified_preserved");
    owned.files[0].modified = Some(5);
    let plan = gone(&owned, &m);
    assert_eq!(summary(&plan), [(OpKind::RemoveFile, "a.txt".to_string())]);
    assert!(plan.findings.is_empty());
    m.files[0].size = 2;
    assert_eq!(gone(&owned, &m).findings[0].code, "file_modified_preserved");
    m.files[0].size = 1;
    m.files[0].modified = Some(6);
    assert_eq!(gone(&owned, &m).findings[0].code, "file_modified_preserved");
}
