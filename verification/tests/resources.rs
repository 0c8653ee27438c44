use tigersetup_engine::machine::{Data, KeyPath, Link, Machine, Rule};
use tigersetup_engine::metadata::{
    EnvironmentVariable, FirewallAction, FirewallDirection, FirewallProtocol, FirewallRule,
    Metadata, OptionValue, Predicate, RegistryKind, Scope, Shortcut, ShortcutLocation,
};
use tigersetup_engine::resource::path::{
    add, appended, contains_equivalent, find_owned, normalize, read, remove, removed, split,
    PathChange,
};
use tigersetup_engine::resource::predicate::{enabled, Options};
use tigersetup_engine::resource::shortcut::{
    link_path, removable, remove_emptied_folders, targets_install_root,
};
use tigersetup_engine::resource::{environment, firewall, registration, registry, shortcut};
use tigersetup_engine::scope::locations;
use tigersetup_engine::state::installation::OwnedEnvironmentVariable;

fn when(option: &str, equals: &str) -> Predicate {
    Predicate { option: option.into(), equals: equals.into() }
}

#[test]
fn variables_expand_and_follow_their_predicate() {
    let mut metadata = Metadata::default();
    metadata.package.version = "1.2.3".into();
    metadata.environment_variables.push(EnvironmentVariable {
        name: "TSTA_HOME".into(),
        value: "%INSTALLROOT%".into(),
        expandable: true,
        when: None,
    });
    metadata.environment_variables.push(EnvironmentVariable {
        name: "TSTA_VERSION".into(),
        value: "%VERSION%".into(),
        expandable: false,
        when: Some(when("environment", "true")),
    });
    let locations = locations(Scope::User);
    let mut options = Options::new();
    options.insert("environment", OptionValue::Bool(false));
    let wanted = environment::desired(&metadata, &options, &locations, "C:\\P");
    assert_eq!(wanted.len(), 1);
    assert_eq!(wanted[0].name, "TSTA_HOME");
    assert_eq!(wanted[0].data, Data::ExpandString("C:\\P".into()));
    assert_eq!(wanted[0].key.to_string(), "HKCU\\Environment");
    options.insert("environment", OptionValue::Bool(true));
    let wanted = environment::desired(&metadata, &options, &locations, "C:\\P");
    assert_eq!(wanted.len(), 2);
    assert_eq!(wanted[1].data, Data::String("1.2.3".into()));

    let owned = OwnedEnvironmentVariable {
        hive_key: "HKCU\\Environment".into(),
        name: "TSTA_HOME".into(),
        kind: "expand_string".into(),
        data: "C:\\P".into(),
        pre_existed: true,
        previous_kind: Some("string".into()),
        previous_data: Some("old".into()),
    };
    assert_eq!(
        environment::owned_data(&owned).unwrap(),
        Data::ExpandString("C:\\P".into())
    );
    assert_eq!(
        environment::restore_data(&owned).unwrap(),
        Some(Data::String("old".into()))
    );
    let fresh = OwnedEnvironmentVariable {
        pre_existed: false,
        previous_kind: None,
        previous_data: None,
        ..owned.clone()
    };
    assert_eq!(environment::restore_data(&fresh).unwrap(), None);
    let broken = OwnedEnvironmentVariable { previous_kind: None, ..owned };
    assert!(environment::restore_data(&broken).is_err());
}

#[test]
fn rules_resolve_their_program_and_follow_their_predicate() {
    let mut metadata = Metadata::default();
    metadata.package.name = "TestApp".into();
    metadata.firewall_rules = vec![
        FirewallRule {
            name: "TestApp listener".into(),
            description: "Lets TestApp listen".into(),
            program: "bin/app.exe".into(),
            direction: FirewallDirection::In,
            action: FirewallAction::Allow,
            protocol: FirewallProtocol::Tcp,
            local_ports: "47110".into(),
            when: Some(when("firewall", "true")),
        },
        FirewallRule {
            name: "TestApp out".into(),
            program: "bin/app.exe".into(),
            direction: FirewallDirection::Out,
            action: FirewallAction::Block,
            ..Default::default()
        },
    ];
    let mut options = Options::new();
    options.insert("firewall", OptionValue::Bool(true));
    let rules = firewall::desired(&metadata, &options, "C:\\P").unwrap();
    assert_eq!(rules.len(), 2);
    assert_eq!(rules[0].program, "C:\\P\\bin\\app.exe");
    assert_eq!(rules[0].grouping, "TigerSetup: TestApp");
    assert_eq!(rules[0].direction, "in");
    assert_eq!(rules[0].protocol, "tcp");
    assert_eq!(rules[0].local_ports, "47110");
    assert!(rules[0].enabled);
    assert_eq!(rules[1].direction, "out");
    assert_eq!(rules[1].action, "block");
    assert_eq!(rules[1].protocol, "any");
    options.insert("firewall", OptionValue::Bool(false));
    assert_eq!(firewall::desired(&metadata, &options, "C:\\P").unwrap().len(), 1);

    let recorded = rules[0].clone();
    let mut current = recorded.clone();
    current.program = current.program.to_uppercase();
    assert!(
        firewall::matches(&current, &recorded),
        "the program path compares case-insensitively"
    );
    current.enabled = false;
    assert!(!firewall::matches(&current, &recorded), "a disabled rule was modified");
    assert!(firewall::is_ours(&recorded, "TigerSetup: TestApp"));
    let mut stranger = recorded.clone();
    stranger.grouping = String::new();
    assert!(!firewall::is_ours(&stranger, "TigerSetup: TestApp"));
    assert!(firewall::rule_of(None, "operation 3").is_err());
    assert_eq!(firewall::rule_of(Some(&recorded.serialize()), "x").unwrap(), recorded);
    assert!(Rule::deserialize("nonsense").is_err());
}

const ENTRY: &str = "C:\\Users\\x\\AppData\\Local\\Programs\\TestApp\\bin";

fn machine() -> Machine {
    let mut m = Machine::empty();
    m.environment.push(("SystemDrive".into(), "C:".into()));
    m
}

fn normal(entry: &str) -> String {
    normalize(entry, &machine())
}

#[test]
fn normalization_folds_the_equivalent_spellings() {
    let normalized = normal(ENTRY);
    assert_eq!(normal(&format!("{ENTRY}\\")), normalized);
    assert_eq!(normal(&ENTRY.to_uppercase()), normalized);
    assert_eq!(normal(&format!(" \"{ENTRY}\" ")), normalized);
    assert_eq!(normal(&ENTRY.replace('\\', "/")), normalized);
    assert_eq!(normal("C:\\"), "c:\\");
    assert_eq!(normal("C:"), "c:\\");
    assert_eq!(normal("%SystemDrive%\\Windows"), normal("C:\\Windows"));
    assert_eq!(normal("%NOPE_UNSET%\\a"), "%nope_unset%\\a");
    assert_eq!(normal("C:\\ŻÓŁĆ"), "c:\\żółć");
}

#[test]
fn a_pre_existing_lookalike_is_neither_duplicated_nor_claimed_nor_removed() {
    let m = machine();
    let lookalike = format!("{ENTRY}\\");
    let text = format!("C:\\Windows;{lookalike}");
    assert!(contains_equivalent(&text, &normal(ENTRY), &m));
    assert_eq!(find_owned(&text, ENTRY, &normal(ENTRY), &m), Some(1));
    assert_eq!(find_owned(&text, &lookalike, &normal(ENTRY), &m), Some(1));
}

#[test]
fn removal_keeps_a_trailing_empty_segment_and_prefers_the_raw_text() {
    let m = machine();
    let upper = ENTRY.to_uppercase();
    let text = format!("{ENTRY}\\;{upper};;");
    assert_eq!(
        split(&text),
        vec![format!("{ENTRY}\\"), upper.clone(), "".into(), "".into()]
    );
    assert_eq!(
        removed(&text, &upper, &normal(ENTRY), &m).unwrap(),
        format!("{ENTRY}\\;;"),
        "the exact raw text goes, the lookalike and the empty segments stay"
    );
    assert_eq!(
        removed(&text, "C:\\elsewhere", &normal(ENTRY), &m).unwrap(),
        format!("{upper};;"),
        "without an exact match the first normalized match goes"
    );
    assert_eq!(removed("C:\\Windows;", ENTRY, &normal(ENTRY), &m), None);
    assert_eq!(removed("", ENTRY, &normal(ENTRY), &m), None);
    assert_eq!(removed(ENTRY, ENTRY, &normal(ENTRY), &m).unwrap(), "");
}

#[test]
fn appending_keeps_a_trailing_empty_segment_and_round_trips() {
    let m = machine();
    assert_eq!(appended("", ENTRY), ENTRY);
    assert_eq!(appended("C:\\Windows", ENTRY), format!("C:\\Windows;{ENTRY}"));
    let with_empty = "C:\\Windows;C:\\Tools;;";
    let after = appended(with_empty, ENTRY);
    assert_eq!(after, format!("C:\\Windows;C:\\Tools;;{ENTRY};"));
    assert_eq!(
        removed(&after, ENTRY, &normal(ENTRY), &m).unwrap(),
        with_empty,
        "removal restores the original text exactly"
    );
}

#[test]
fn exactly_one_entry_after_a_reinstall_that_keeps_it() {
    let once = appended("C:\\Windows", ENTRY);
    assert!(contains_equivalent(&once, &normal(ENTRY), &machine()));
    let count = split(&once).iter().filter(|s| normal(s) == normal(ENTRY)).count();
    assert_eq!(count, 1);
}

#[test]
fn add_and_remove_are_idempotent_against_the_registry() {
    let m = machine();
    let key = KeyPath::parse("HKCU\\Environment").unwrap();
    assert_eq!(
        read(None, &key).unwrap(),
        (String::new(), false),
        "a scope with no environment key has no Path"
    );
    assert_eq!(add(None, &key, ENTRY, &m).unwrap(), PathChange::Write(ENTRY.into()));
    let written = Data::ExpandString(ENTRY.into());
    assert_eq!(
        add(Some(&written), &key, &format!("{ENTRY}\\"), &m).unwrap(),
        PathChange::Unchanged
    );
    assert_eq!(read(Some(&written), &key).unwrap(), (ENTRY.to_string(), true));
    assert_eq!(
        remove(Some(&written), &key, ENTRY, true, &m).unwrap(),
        PathChange::Delete,
        "a Path TigerSetup created is deleted when it empties"
    );
    assert_eq!(remove(None, &key, ENTRY, true, &m).unwrap(), PathChange::Unchanged);
    assert_eq!(
        read(Some(&Data::Dword(1)), &key).unwrap_err().code,
        "path_value_unreadable"
    );
}

#[test]
fn a_predicate_compares_the_canonical_text_of_the_option_value() {
    let mut options = Options::new();
    options.insert("desktop", OptionValue::Bool(true));
    options.insert("path-mode", OptionValue::Choice("tools".into()));
    assert!(enabled(None, "", &options));
    assert!(enabled(Some(&when("desktop", "true")), "", &options));
    assert!(!enabled(Some(&when("desktop", "false")), "", &options));
    assert!(enabled(Some(&when("path-mode", "tools")), "", &options));
    assert!(!enabled(Some(&when("path-mode", "command")), "", &options));
    assert!(!enabled(Some(&when("unknown", "true")), "", &options));
    assert!(enabled(None, "desktop", &options));
    assert!(enabled(None, "DESKTOP", &options));
    options.insert("desktop", OptionValue::Bool(false));
    assert!(!enabled(None, "desktop", &options));
    assert!(enabled(Some(&when("path-mode", "tools")), "desktop", &options));
}

#[test]
fn the_registration_values_derive_from_the_package() {
    let mut metadata = Metadata::default();
    metadata.package.id = "IT-Tiger.TestApp".into();
    metadata.package.name = "TestApp".into();
    metadata.package.version = "1.2.3".into();
    metadata.package.publisher = "IT Tiger".into();
    metadata.package.website_url = "https://example.invalid".into();
    metadata.install.scopes = vec![Scope::User];
    metadata.install.user_root = "%LOCALAPPDATA%\\Programs\\TestApp".into();
    metadata.install.estimated_size = 1025;
    metadata.registration.display_icon = "bin/app.exe".into();
    let locations = locations(Scope::User);
    let (key, values) = registration::values(
        &metadata,
        &locations,
        "C:\\P\\TestApp",
        "C:\\S\\uninstall.exe",
        "20260907",
    )
    .unwrap();
    assert_eq!(
        key.to_string(),
        "HKCU\\Software\\Microsoft\\Windows\\CurrentVersion\\Uninstall\\IT-Tiger.TestApp"
    );
    let get = |name: &str| values.iter().find(|v| v.name == name).unwrap().data.clone();
    assert_eq!(get("DisplayName"), Data::String("TestApp".into()));
    assert_eq!(get("DisplayVersion"), Data::String("1.2.3".into()));
    assert_eq!(get("InstallLocation"), Data::String("C:\\P\\TestApp\\".into()));
    assert_eq!(get("DisplayIcon"), Data::String("C:\\P\\TestApp\\bin\\app.exe".into()));
    assert_eq!(get("UninstallString"), Data::String("\"C:\\S\\uninstall.exe\"".into()));
    assert_eq!(
        get("QuietUninstallString"),
        Data::String("\"C:\\S\\uninstall.exe\" uninstall --quiet".into())
    );
    assert_eq!(get("NoModify"), Data::Dword(1));
    assert_eq!(get("EstimatedSize"), Data::Dword(2));
    assert_eq!(get("VersionMajor"), Data::Dword(1));
    assert_eq!(get("VersionMinor"), Data::Dword(2));
    assert_eq!(get("InstallDate"), Data::String("20260907".into()));
    assert_eq!(get("URLInfoAbout"), Data::String("https://example.invalid".into()));
    assert!(values.iter().all(|v| v.name != "HelpLink"));
    assert_eq!(registration::install_date().len(), 8);
}

#[test]
fn placeholders_expand_in_data() {
    assert_eq!(
        registry::expand("%INSTALLROOT%\\bin;%VERSION%", "C:\\P", "1.2.3"),
        "C:\\P\\bin;1.2.3"
    );
    assert!(matches!(
        registry::data_for(RegistryKind::Dword, "7".into(), "k\\v").unwrap(),
        Data::Dword(7)
    ));
    assert_eq!(
        registry::data_for(RegistryKind::Dword, "x".into(), "k\\v").unwrap_err().code,
        "metadata_invalid"
    );
}

fn words(v: &[&str]) -> Vec<String> {
    v.iter().map(|s| s.to_string()).collect()
}

#[test]
fn a_removed_link_takes_the_folders_it_emptied_and_nothing_else() {
    let roots = words(&["C:\\M\\Programs"]);
    let own = "C:\\M\\Programs\\Vendor\\MyApp";
    let link = "C:\\M\\Programs\\Vendor\\MyApp\\MyApp.lnk";
    assert_eq!(remove_emptied_folders(link, &roots, &words(&[own])), [own]);
    assert_eq!(
        remove_emptied_folders(
            "C:\\M\\Programs\\Vendor\\Other.lnk",
            &roots,
            &words(&["C:\\M\\Programs\\Vendor", "C:\\M\\Programs"])
        ),
        ["C:\\M\\Programs\\Vendor"]
    );
    assert!(remove_emptied_folders(link, &roots, &words(&[])).is_empty());
    assert!(remove_emptied_folders(
        "C:\\M\\Programs\\Direct.lnk",
        &roots,
        &words(&["C:\\M\\Programs"])
    )
    .is_empty());
}

#[test]
fn a_shortcut_folder_inside_another_is_never_removed() {
    let roots = words(&["C:\\M\\Programs", "C:\\M\\Programs\\Startup"]);
    assert!(remove_emptied_folders(
        "C:\\M\\Programs\\Startup\\Agent.lnk",
        &roots,
        &words(&["C:\\M\\Programs\\Startup"])
    )
    .is_empty());
}

#[test]
fn the_install_root_check_is_a_case_insensitive_prefix() {
    let root = "C:\\Programs\\TestApp";
    assert!(targets_install_root("c:\\programs\\testapp\\bin\\app.exe", root));
    assert!(targets_install_root("C:\\Programs\\TestApp", root));
    assert!(!targets_install_root("C:\\Programs\\TestApp2\\app.exe", root));
    assert!(!targets_install_root("C:\\Programs\\app.exe", root));
    assert!(link_path("relative.lnk").is_err());
    assert!(link_path("C:\\x\\a.txt").is_err());
    assert!(link_path("C:\\x\\A.LNK").is_ok());
    assert!(link_path("C:\\x\\Docs.url").is_ok());
    let url = Link { target: "https://example.invalid/docs".into(), ..Link::default() };
    assert!(removable("C:\\x\\Docs.url", &url, "HTTPS://example.invalid/docs", root));
    assert!(!removable("C:\\x\\Docs.url", &url, "https://example.invalid/other", root));
}

#[test]
fn shortcuts_resolve_their_locations_working_directory_and_url() {
    let mut metadata = Metadata::default();
    metadata.package.name = "TestApp".into();
    metadata.shortcuts = vec![
        Shortcut {
            location: ShortcutLocation::StartMenu,
            name: "TestApp".into(),
            target: "bin/app.exe".into(),
            app_user_model_id: "ITTiger.TestApp".into(),
            working_directory: "data".into(),
            ..Default::default()
        },
        Shortcut {
            location: ShortcutLocation::Startup,
            name: "TestApp Agent".into(),
            target: "bin/app.exe".into(),
            arguments: "--agent".into(),
            when: Some(when("startup", "true")),
            ..Default::default()
        },
        Shortcut {
            location: ShortcutLocation::SendTo,
            name: "TestApp".into(),
            target: "bin/app.exe".into(),
            ..Default::default()
        },
        Shortcut {
            location: ShortcutLocation::StartMenu,
            name: "TestApp Documentation".into(),
            url: "https://example.invalid/docs".into(),
            icon: "bin/app.exe".into(),
            ..Default::default()
        },
    ];
    let mut m = Machine::empty();
    for name in
        ["PROGRAMS", "DESKTOP", "STARTUP", "SENDTO", "COMMONPROGRAMS", "COMMONDESKTOP", "COMMONSTARTUP"]
    {
        m.known_folders.push((name.into(), format!("C:\\F\\{name}")));
    }
    let mut options = Options::new();
    options.insert("startup", OptionValue::Bool(true));
    let root = "C:\\P";

    let user = locations(Scope::User);
    let (desired, findings) =
        shortcut::desired(&metadata, &options, &user, root, &m).unwrap();
    assert!(findings.is_empty(), "{findings:?}");
    assert_eq!(desired.len(), 4);
    assert!(desired[0].path.ends_with("\\TestApp.lnk"));
    assert_eq!(desired[0].link.working_directory, "C:\\P\\data");
    assert_eq!(desired[0].link.app_user_model_id, "ITTiger.TestApp");
    assert!(desired[1].path.ends_with("\\TestApp Agent.lnk"));
    assert_eq!(desired[1].link.working_directory, "C:\\P\\bin");
    assert!(desired[2].path.ends_with("SENDTO\\TestApp.lnk"), "{:?}", desired[2].path);
    assert!(desired[3].path.ends_with("\\TestApp Documentation.url"));
    assert_eq!(desired[3].link.target, "https://example.invalid/docs");
    assert_eq!(desired[3].link.icon, "C:\\P\\bin\\app.exe");
    assert!(desired[3].link.working_directory.is_empty());

    options.insert("startup", OptionValue::Bool(false));
    let machine = locations(Scope::Machine);
    let (desired, findings) =
        shortcut::desired(&metadata, &options, &machine, root, &m).unwrap();
    assert_eq!(desired.len(), 2, "the startup link is off, Send To has no machine folder");
    assert_eq!(findings.len(), 1);
    assert_eq!(findings[0].code, "shortcut_location_unavailable");

    let wanted = &desired[0].link;
    let mut current = Link {
        target: wanted.target.clone(),
        arguments: wanted.arguments.clone(),
        description: wanted.description.clone(),
        icon: wanted.icon.clone(),
        working_directory: wanted.working_directory.to_uppercase(),
        app_user_model_id: wanted.app_user_model_id.clone(),
    };
    assert!(shortcut::matches(&current, wanted));
    current.app_user_model_id = String::new();
    assert!(!shortcut::matches(&current, wanted), "a link without the id is rewritten");
}

#[test]
fn a_staged_file_has_the_declared_size() {
    assert!(tigersetup_engine::resource::file::check_size("C:\\a", 5, None).is_ok());
    assert!(tigersetup_engine::resource::file::check_size("C:\\a", 5, Some(5)).is_ok());
    let err = tigersetup_engine::resource::file::check_size("C:\\a", 5, Some(6)).unwrap_err();
    assert_eq!(err.code, "payload_entry_size_mismatch");
    assert_eq!(err.message, "C:\\a: wrote 5 bytes, metadata declares 6");
    let mut m = Machine::empty();
    m.files.push(tigersetup_engine::machine::FileSeen {
        path: "C:\\A".into(),
        sha256: "ab".into(),
        size: 1,
        modified: None,
    });
    assert!(tigersetup_engine::resource::file::matches("c:\\a", "ab", &m));
    assert!(!tigersetup_engine::resource::file::matches("c:\\a", "cd", &m));
    assert!(!tigersetup_engine::resource::file::matches("c:\\b", "ab", &m));
}

#[test]
fn a_rule_is_compared_exactly_but_for_the_case_of_its_program() {
    let rule = |name: &str, program: &str| tigersetup_engine::machine::Rule {
        name: name.into(),
        grouping: "G".into(),
        program: program.into(),
        direction: "in".into(),
        action: "allow".into(),
        protocol: "tcp".into(),
        local_ports: "1".into(),
        enabled: true,
        description: "d".into(),
    };
    let matches = tigersetup_engine::resource::firewall::matches;
    assert!(matches(&rule("App", "C:\\A.EXE"), &rule("App", "c:\\a.exe")));
    assert!(!matches(&rule("APP", "c:\\a.exe"), &rule("App", "c:\\a.exe")));
}

#[test]
fn a_network_path_needs_a_server_and_a_share() {
    for good in ["C:\\x.lnk", "c:/x.lnk", "\\\\s\\x.lnk", "//s/h/x.lnk"] {
        assert!(shortcut::link_path(good).is_ok(), "{good}");
    }
    for bad in ["\\\\x.lnk", "\\\\\\s\\x.lnk", "\\x.lnk", "C:x.lnk", "x.lnk", "\\\\s\\\\x.lnk"] {
        assert_eq!(shortcut::link_path(bad).unwrap_err().code, "journal_inconsistent", "{bad}");
    }
}

#[test]
fn paths_take_either_separator_and_ignore_trailing_ones() {
    let name = tigersetup_engine::plan::target::file_name_of;
    let parent = |p: &str| tigersetup_engine::plan::target::parent_folder_of(p);
    let join = tigersetup_engine::plan::target::join;
    for path in ["C:\\a\\b.exe", "C:/a/b.exe", "C:\\a\\b.exe\\", "C:\\a/b.exe//", "C:\\a\\b.exe\\."] {
        assert_eq!(name(path), "b.exe", "{path}");
        assert!(["C:\\a", "C:/a"].contains(&parent(path).unwrap().as_str()), "{path}");
    }
    assert_eq!(parent("C:\\a").as_deref(), Some("C:\\"));
    assert_eq!(parent("C:\\"), None);
    assert_eq!(parent("\\\\s\\h\\a").as_deref(), Some("\\\\s\\h\\"));
    assert_eq!(parent("\\\\s\\h\\"), None);
    assert_eq!(parent("a"), None);
    assert_eq!(name("C:\\"), "");
    assert_eq!(name("C:\\a\\.."), "");
    assert_eq!(name("\\\\s\\h"), "");
    assert_eq!(join("C:\\a", "b"), "C:\\a\\b");
    assert_eq!(join("C:/a/", "b"), "C:/a/b");
    assert_eq!(join("C:", "b"), "C:b");
    assert_eq!(join("C:\\a", "\\b"), "C:\\b");
    assert_eq!(join("C:\\a", "D:\\b"), "D:\\b");
}
