use tigersetup_engine::launch::{log, target, Started};
use tigersetup_engine::legacy::{
    candidate_keys, key_disappears, migrate, migrated, quiet_switches, split_command, Migration,
    Ran, Wait,
};
use tigersetup_engine::machine::{Data, FileSeen, KeyPath, Machine, ValueSeen};
use tigersetup_engine::metadata::{Launch, Legacy, Scope};
use tigersetup_engine::report::documents::log_line;
use tigersetup_engine::scope::locations;

fn declared(working_directory: Option<&str>) -> Launch {
    Launch {
        executable: "bin/App.exe".into(),
        arguments: vec![
            "--root".into(),
            "%INSTALLROOT%".into(),
            "v%VERSION%".into(),
            "100%".into(),
            "a \"quoted\" word".into(),
            "trailing\\".into(),
            String::new(),
        ],
        working_directory: working_directory.map(str::to_string),
        checked: true,
    }
}

#[test]
fn a_declaration_resolves_against_the_installation() {
    let m = Machine::empty();
    let root = "C:\\Program Files\\App";
    let resolved = target(&declared(None), root, "1.2.3", &m);
    assert_eq!(resolved.program, "C:\\Program Files\\App\\bin\\App.exe");
    assert_eq!(
        resolved.working_directory, "C:\\Program Files\\App\\bin",
        "the program's own directory by default"
    );
    assert_eq!(
        resolved.arguments,
        [
            "--root",
            "C:\\Program Files\\App",
            "v1.2.3",
            "100%",
            "a \"quoted\" word",
            "trailing\\",
            "",
        ]
    );
    assert_eq!(
        target(&declared(Some("")), root, "1.2.3", &m).working_directory,
        root,
        "empty is the install root"
    );
    assert_eq!(
        target(&declared(Some("data/cache")), root, "1.2.3", &m).working_directory,
        "C:\\Program Files\\App\\data\\cache"
    );
}

#[test]
fn every_status_names_the_resolved_program() {
    let target = target(&declared(None), "C:\\App", "1.0.0", &Machine::empty());
    let declined = target.declined();
    assert_eq!(declined.status, "declined");
    assert_eq!(declined.code, None);
    assert_eq!(declined.program, target.program);
    assert_eq!(declined.arguments.len(), 7);

    let failed = target.start(Started::Failed("no".into()));
    assert_eq!(failed.status, "failed");
    assert_eq!(failed.code, Some("launch_failed"));
    assert!(failed.message.is_some());
}

#[test]
fn the_log_line_is_in_the_logs_own_format() {
    let target = target(&declared(None), "C:\\App", "1.0.0", &Machine::empty());
    let mut info = target.declined();
    let (code, message) = log(Some("C:\\run.log"), &info).unwrap();
    let line = log_line("2026-01-01T00:00:00.000Z", code, &message);
    assert!(line.contains(" [launch_declined] "), "{line}");
    info.status = "started";
    info.method = Some("own_token");
    info.pid = Some(42);
    info.foreground = Some(true);
    let (code, message) = log(Some("C:\\run.log"), &info).unwrap();
    let line = log_line("2026-01-01T00:00:00.000Z", code, &message);
    assert!(
        line.contains(" [launch_started] ")
            && line.ends_with("method=own_token pid=42 foreground=true"),
        "{line}"
    );
    assert!(log(None, &info).is_none());
}

#[test]
fn a_quoted_program_keeps_the_spaces_in_its_path() {
    let m = Machine::empty();
    assert_eq!(
        split_command("\"C:\\Program Files\\App\\unins000.exe\" /VERYSILENT", &m),
        (
            "C:\\Program Files\\App\\unins000.exe".to_string(),
            vec!["/VERYSILENT".to_string()]
        )
    );
    assert_eq!(
        split_command("\"C:\\App\\unins000.exe\"", &m),
        ("C:\\App\\unins000.exe".to_string(), Vec::new())
    );
    assert_eq!(
        split_command("C:\\App\\unins000.exe /X \"a b\"", &m),
        (
            "C:\\App\\unins000.exe".to_string(),
            vec!["/X".to_string(), "a b".to_string()]
        )
    );
    assert_eq!(
        split_command("C:\\App\\unins000.exe", &m),
        ("C:\\App\\unins000.exe".to_string(), Vec::new())
    );
}

#[test]
fn an_unquoted_program_with_a_space_is_found_on_disk() {
    let mut m = Machine::empty();
    m.files.push(FileSeen {
        path: "C:\\Old App\\unins000.exe".into(),
        sha256: "00".into(),
        size: 1,
        modified: None,
    });
    assert_eq!(
        split_command("C:\\Old App\\unins000.exe /VERYSILENT", &m),
        ("C:\\Old App\\unins000.exe".to_string(), vec!["/VERYSILENT".to_string()])
    );
}

#[test]
fn inno_gets_its_unattended_switches_when_the_registration_has_no_quiet_string() {
    assert_eq!(quiet_switches("inno"), ["/VERYSILENT", "/SUPPRESSMSGBOXES", "/NORESTART"]);
    assert!(quiet_switches("something-else").is_empty());
}

#[test]
fn machine_scope_also_looks_in_the_thirty_two_bit_view() {
    let user = candidate_keys(&locations(Scope::User), "Old_is1");
    assert_eq!(user.len(), 1);
    assert_eq!(
        user[0].to_string(),
        "HKCU\\Software\\Microsoft\\Windows\\CurrentVersion\\Uninstall\\Old_is1"
    );
    let machine = candidate_keys(&locations(Scope::Machine), "Old_is1");
    assert_eq!(machine.len(), 2);
    assert_eq!(
        machine[1].to_string(),
        "HKLM\\Software\\WOW6432Node\\Microsoft\\Windows\\CurrentVersion\\Uninstall\\Old_is1"
    );
}

#[test]
fn a_package_without_a_legacy_section_migrates_nothing() {
    assert!(matches!(
        migrate(None, &locations(Scope::User), &Machine::empty()).unwrap(),
        Migration::Nothing
    ));
}

#[test]
fn a_registered_legacy_installation_is_removed_by_its_own_uninstaller() {
    let key = KeyPath::parse(
        "HKCU\\Software\\Microsoft\\Windows\\CurrentVersion\\Uninstall\\Old_is1",
    )
    .unwrap();
    let mut m = Machine::empty();
    m.keys.push(key.clone());
    m.values.push(ValueSeen {
        key: key.clone(),
        name: "UninstallString".into(),
        data: Data::String("\"C:\\Old\\unins000.exe\"".into()),
    });
    let legacy =
        Legacy { registration_key: "Old_is1".into(), installer_type: "inno".into() };
    match migrate(Some(&legacy), &locations(Scope::User), &m).unwrap() {
        Migration::Uninstall { program, arguments, .. } => {
            assert_eq!(program, "C:\\Old\\unins000.exe");
            assert_eq!(arguments, ["/VERYSILENT", "/SUPPRESSMSGBOXES", "/NORESTART"]);
        }
        other => panic!("{other:?}"),
    }
    assert!(migrated(&key, "x", Ran::Exited(0), false).unwrap().uninstalled);
    assert!(migrated(&key, "x", Ran::Exited(1), false).is_err());
    assert!(migrated(&key, "x", Ran::Exited(0), true).is_err());
    assert_eq!(key_disappears(false, 0), Wait::Gone);
    assert_eq!(key_disappears(true, 0), Wait::Again);
    assert_eq!(key_disappears(true, u64::MAX), Wait::StillThere);
}
