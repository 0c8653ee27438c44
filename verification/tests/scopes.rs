use tigersetup_engine::acl::Dacl;
use tigersetup_engine::machine::{Hive, KeyPath, Machine};
use tigersetup_engine::metadata::Scope;
use tigersetup_engine::scope::{expected_state_directory_dacl, locations, Protection};
use tigersetup_engine::state::installation::{
    Owned, OwnedPathEntry, OwnedRegistryValue, OwnedShortcut,
};

fn machine() -> Machine {
    let mut m = Machine::empty();
    m.known_folders.push(("PROGRAMS".into(), "C:\\U\\Start Menu\\Programs".into()));
    m.known_folders.push(("DESKTOP".into(), "C:\\U\\Desktop".into()));
    m
}

#[test]
fn user_and_machine_scope_differ_only_in_their_locations() {
    let user = locations(Scope::User);
    assert_eq!(user.environment_key.to_string(), "HKCU\\Environment");
    assert_eq!(
        user.registration_key("IT-Tiger.TestApp").to_string(),
        "HKCU\\Software\\Microsoft\\Windows\\CurrentVersion\\Uninstall\\IT-Tiger.TestApp"
    );
    assert_eq!(
        user.software_key("IT Tiger\\TestApp").to_string(),
        "HKCU\\Software\\IT Tiger\\TestApp"
    );
    assert_eq!(user.programs_folder, "%PROGRAMS%");
    let machine = locations(Scope::Machine);
    assert_eq!(machine.hive, Hive::LocalMachine);
    assert!(machine.environment_key.subkey.contains("Session Manager"));
    assert_eq!(machine.desktop_folder, "%COMMONDESKTOP%");
    assert_eq!(machine.state_directory_template("X"), "%PROGRAMDATA%\\TigerSetup\\X");
    assert_eq!(
        machine.registration_key("IT-Tiger.TestApp").to_string(),
        "HKLM\\Software\\Microsoft\\Windows\\CurrentVersion\\Uninstall\\IT-Tiger.TestApp"
    );
}

#[test]
fn a_scope_confines_registry_keys_to_its_own_hive_and_roots() {
    let user = locations(Scope::User);
    for allowed in [
        "HKCU\\Software\\IT Tiger\\TestApp",
        "HKCU\\Software\\Microsoft\\Windows\\CurrentVersion\\Uninstall\\IT-Tiger.TestApp",
        "HKCU\\Environment",
    ] {
        user.confine_key(&KeyPath::parse(allowed).unwrap()).unwrap();
    }
    for refused in [
        "HKLM\\Software\\IT Tiger\\TestApp",
        "HKCU\\Console",
        "HKCU\\SOFTWARE2\\IT Tiger",
        "HKCU\\SYSTEM\\CurrentControlSet\\Control\\Session Manager\\Environment",
    ] {
        let err = user.confine_key(&KeyPath::parse(refused).unwrap()).unwrap_err();
        assert_eq!(err.code, "path_outside_root", "{refused}");
    }
    let machine = locations(Scope::Machine);
    machine.confine_key(&KeyPath::parse("HKLM\\Software\\IT Tiger").unwrap()).unwrap();
    machine
        .confine_key(
            &KeyPath::parse(
                "HKLM\\SYSTEM\\CurrentControlSet\\Control\\Session Manager\\Environment",
            )
            .unwrap(),
        )
        .unwrap();
    assert_eq!(
        machine
            .confine_key(&KeyPath::parse("HKCU\\Software\\IT Tiger").unwrap())
            .unwrap_err()
            .code,
        "path_outside_root"
    );
}

#[test]
fn a_tampered_owned_row_is_refused_before_anything_is_planned() {
    let user = locations(Scope::User);
    user.confine_owned(&Owned::default()).unwrap();

    let mut owned = Owned::default();
    owned.registry_values.push(OwnedRegistryValue {
        key: "HKLM\\SYSTEM\\CurrentControlSet\\Services\\Anything".into(),
        name: "ImagePath".into(),
        kind: "string".into(),
        data: "x".into(),
        pre_existed: false,
        previous_kind: None,
        previous_data: None,
    });
    assert_eq!(user.confine_owned(&owned).unwrap_err().code, "path_outside_root");

    let mut owned = Owned::default();
    owned.path_entries.push(OwnedPathEntry {
        hive_key: "HKLM\\SYSTEM\\CurrentControlSet\\Control\\Session Manager\\Environment".into(),
        raw: "C:\\x".into(),
        normalized: "c:\\x".into(),
        pre_existed: false,
        added: true,
    });
    assert_eq!(
        user.confine_owned(&owned).unwrap_err().code,
        "path_outside_root",
        "a user-scope installation may not touch the machine PATH"
    );

    let mut owned = Owned::default();
    owned.shortcuts.push(OwnedShortcut {
        path: "C:\\Windows\\System32\\anything.lnk".into(),
        target: "C:\\x\\app.exe".into(),
    });
    user.confine_owned(&owned).unwrap();
    assert_eq!(
        user.confine_shortcut("C:\\Windows\\System32\\anything.lnk", &machine())
            .unwrap_err()
            .code,
        "path_outside_root"
    );
}

#[test]
fn a_shortcut_in_the_scopes_own_folder_is_allowed() {
    let m = machine();
    let user = locations(Scope::User);
    let folders = user.shortcut_folders(&m).unwrap();
    assert_eq!(folders.len(), 2);
    let link = format!("{}\\TestApp.lnk", folders[0]);
    user.confine_shortcut(&link, &m).unwrap();
    assert!(user.confine_shortcut(&folders[0], &m).is_err());
    let sibling = format!("{}X\\TestApp.lnk", folders[0]);
    assert_eq!(
        user.confine_shortcut(&sibling, &m).unwrap_err().code,
        "path_outside_root"
    );
    assert_eq!(
        user.confine_shortcut(&link, &Machine::empty()).unwrap_err().code,
        "known_folder_unavailable"
    );
}

#[test]
fn the_state_directory_list_is_recognised_only_when_it_is_intact() {
    let wanted = expected_state_directory_dacl();
    let read = |text: &str| Dacl::parse(text).unwrap().is(&wanted);
    assert!(read("D:P(A;OICI;FA;;;SY)(A;OICI;FRFX;;;BU)(A;OICI;FA;;;BA)"));
    assert!(!read("D:(A;OICI;FA;;;SY)(A;OICI;FA;;;BA)(A;OICI;0x1200a9;;;BU)"));
    assert!(!read("D:P(A;OICI;FA;;;SY)(A;OICI;FA;;;BA)"));
    assert!(!read("D:PAI(A;OICIID;FA;;;SY)(A;OICI;FA;;;BA)(A;OICI;0x1200a9;;;BU)"));
    assert!(!read("D:P(A;OICI;FA;;;SY)(A;OICI;FA;;;BA)(A;OICI;FA;;;BU)"));
}

#[test]
fn the_state_directorys_protection_belongs_to_elevated_machine_scope() {
    let user = locations(Scope::User);
    let machine = locations(Scope::Machine);
    let intact = "O:BAD:P(A;OICI;FA;;;SY)(A;OICI;FA;;;BA)(A;OICI;0x1200a9;;;BU)";
    assert_eq!(user.protect_state_directory(true, "BA", None), Protection::NotApplicable);
    let unprivileged = machine.protect_state_directory(false, "S-1-5-32-544", None);
    assert_eq!(unprivileged, Protection::Unprivileged);
    assert_eq!(unprivileged.code(), Some("state_directory_protection_skipped"));
    assert_eq!(
        machine.protect_state_directory(true, "S-1-5-32-544", Some("D:(A;;FA;;;WD)")),
        Protection::Written
    );
    assert_eq!(
        machine.protect_state_directory(true, "S-1-5-32-544", Some(intact)),
        Protection::Intact,
        "a list already in place is left alone"
    );
}
