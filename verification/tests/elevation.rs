use tigersetup_engine::elevation::{
    arguments_for, arguments_to_forward, declined, exit_code, probe_site, refused,
    relaunch_arguments, relaunched, require_privileges, required, requirement, result_path,
    show_for, unavailable, Intent, Launched, Requirement, Rights, Show, RESULT_ARGUMENT,
};
use tigersetup_engine::engine::package::{Package, Roots, RunOptions};
use tigersetup_engine::machine::Machine;
use tigersetup_engine::metadata::{Metadata, OptionValue, Scope};
use tigersetup_engine::resource::predicate::Options;
use tigersetup_engine::Error;

fn rights(elevated: bool, writes_state: bool, writes_files: bool) -> Rights {
    Rights { elevated, writes_state, writes_files }
}

fn roots() -> Roots {
    Roots {
        state_dir: "C:\\ProgramData\\TigerSetup\\P".into(),
        state_db: "C:\\ProgramData\\TigerSetup\\P\\state.db".into(),
        install_root: "C:\\Program Files\\P".into(),
        uninstaller: "C:\\ProgramData\\TigerSetup\\P\\uninstall.exe".into(),
    }
}

#[test]
fn user_scope_never_elevates() {
    assert!(!required(Scope::User, rights(false, true, true)));
    assert!(!required(Scope::User, rights(false, false, false)));
}

#[test]
fn machine_scope_elevates_unless_this_process_can_write_both_roots() {
    assert!(!required(Scope::Machine, rights(false, true, true)));
    assert!(required(Scope::Machine, rights(false, false, true)));
    assert!(required(Scope::Machine, rights(false, true, false)));
    assert!(!required(Scope::User, rights(false, true, false)));
    assert!(!required(Scope::Machine, rights(true, false, false)));
    let mut m = Machine::empty();
    m.known_folders.push(("PROGRAMDATA".into(), "C:\\ProgramData".into()));
    m.known_folders.push(("PROGRAMFILES".into(), "C:\\Program Files".into()));
    let mut package = Package {
        metadata: Metadata::default(),
        metadata_sha256: String::new(),
        path: String::new(),
        uninstaller_scope: None,
        license_sha256: None,
        minimum_build: 0,
        tigersetup_version: String::new(),
        engine_sha256: String::new(),
        engine_block_sha256: String::new(),
    };
    package.metadata.package.id = "P".into();
    package.metadata.install.scopes = vec![Scope::Machine];
    package.metadata.install.machine_root = "%PROGRAMFILES%\\P".into();
    let options = RunOptions { scope: Scope::Machine, ..Default::default() };
    let asked = |r| requirement(&package, &options, r, &m).unwrap();
    assert_eq!(asked(rights(false, false, true)), Requirement::Elevation);
    assert!(asked(rights(false, false, true)).needs_elevation());
    assert_eq!(asked(rights(false, true, true)), Requirement::Satisfied);
    let user = RunOptions { scope: Scope::User, ..Default::default() };
    let err = requirement(&package, &user, rights(true, true, true), &m).unwrap_err();
    assert_eq!(err.code, "scope_unsupported");
    let err = require_privileges(Scope::Machine, &roots(), rights(false, false, true)).unwrap_err();
    assert_eq!(err.code, "elevation_required");
    assert_eq!(
        err.message,
        "this installation needs administrator rights: machine scope installs into \
         C:\\Program Files\\P and keeps its state in C:\\ProgramData\\TigerSetup\\P"
    );
    assert!(require_privileges(Scope::Machine, &roots(), rights(true, false, true)).is_ok());
}

#[test]
fn the_place_that_is_probed_is_the_nearest_that_exists() {
    let mut m = Machine::empty();
    m.directories.push("C:\\ProgramData".into());
    assert_eq!(
        probe_site("C:\\ProgramData\\TigerSetup\\P", &m),
        Some("C:\\ProgramData".to_string())
    );
    assert_eq!(probe_site("D:\\Apps\\P", &m), None);
}

#[test]
fn the_relaunched_command_line_carries_the_runs_choices() {
    let mut options = RunOptions {
        scope: Scope::Machine,
        install_root: Some("C:\\Program Files\\TestApp".into()),
        lang: "pl-PL".into(),
        quiet: false,
        ..RunOptions::default()
    };
    let mut chosen = Options::new();
    chosen.insert("path", OptionValue::Bool(false));
    chosen.insert("desktop-shortcut", OptionValue::Bool(true));
    options.options = chosen;
    assert_eq!(
        arguments_for(Intent::Install, &options),
        [
            "install",
            "--scope",
            "machine",
            "--install-root",
            "C:\\Program Files\\TestApp",
            "--option",
            "desktop-shortcut",
            "on",
            "--option",
            "path",
            "off",
            "--lang",
            "pl-PL",
        ]
    );

    let quiet = RunOptions {
        scope: Scope::Machine,
        quiet: true,
        install_dependencies: false,
        log_path: Some("C:\\Temp\\run.log".into()),
        faults: vec!["after_rename@3:crash:skip_flush".into()],
        ..RunOptions::default()
    };
    assert_eq!(
        arguments_for(Intent::Uninstall, &quiet),
        [
            "uninstall",
            "--quiet",
            "--scope",
            "machine",
            "--no-dependency-install",
            "--lang",
            "en-US",
            "--log",
            "C:\\Temp\\run.log",
            "--fault",
            "after_rename@3:crash:skip_flush",
        ]
    );
    assert_eq!(arguments_for(Intent::Repair, &quiet)[0], "repair");
}

#[test]
fn a_wizard_child_is_started_shown_and_a_quiet_one_hidden() {
    let wizard = RunOptions { scope: Scope::Machine, quiet: false, ..RunOptions::default() };
    assert_eq!(show_for(&arguments_for(Intent::Install, &wizard)), Show::Shown);
    let quiet = RunOptions { scope: Scope::Machine, quiet: true, ..RunOptions::default() };
    assert_eq!(show_for(&arguments_for(Intent::Install, &quiet)), Show::Hidden);
    let chosen: Vec<String> = ["install", "--scope", "machine", "--lang", "en-US"]
        .iter()
        .map(|s| s.to_string())
        .collect();
    assert_eq!(show_for(&chosen), Show::Shown);
}

#[test]
fn a_result_argument_is_never_forwarded_twice() {
    let given: Vec<String> = ["install", "--quiet", "--scope", "machine"]
        .iter()
        .map(|s| s.to_string())
        .collect();
    assert_eq!(arguments_to_forward(&given), given);

    let mut nested = given.clone();
    nested.push(RESULT_ARGUMENT.into());
    nested.push("C:\\Temp\\a.json".into());
    assert_eq!(arguments_to_forward(&nested), given);
    assert_eq!(result_path(&nested), Some("C:\\Temp\\a.json".to_string()));
    assert_eq!(result_path(&given), None);
    let relaunch = relaunch_arguments(&nested, "C:\\Temp\\b.json");
    assert_eq!(relaunch.len(), 6);
    assert_eq!(result_path(&relaunch), Some("C:\\Temp\\b.json".to_string()));
}

#[test]
fn a_declined_prompt_is_distinguishable_and_both_failures_exit_four() {
    assert_eq!(refused().code, "elevation_refused");
    assert_eq!(unavailable("no prompt").code, "elevation_required");
    assert!(declined(&refused()));
    assert!(!declined(&unavailable("no prompt")));
    assert!(!declined(&Error::new("cancelled", "")));
    assert_eq!(refused().exit_code(), exit_code());
    assert_eq!(unavailable("no prompt").exit_code(), exit_code());
    assert_ne!(exit_code(), Error::new("cancelled", "").exit_code());
    assert_eq!(relaunched(Launched::Refused, None).unwrap_err().code, "elevation_refused");
    assert_eq!(
        relaunched(Launched::Failed("no prompt".into()), None).unwrap_err().message,
        "this installation needs administrator rights: no prompt"
    );
    let ran = relaunched(Launched::Exited(3010), Some("{}".into())).unwrap();
    assert_eq!((ran.exit_code, ran.document.as_deref()), (3010, Some("{}")));
}

#[test]
fn a_child_reports_to_a_file_of_its_own() {
    assert_eq!(
        tigersetup_engine::elevation::result_file("C:\\T", "1-2-3"),
        "C:\\T\\elevated-1-2-3.json"
    );
}
