use tigersetup_engine::dependency::acquire::{
    acquire, announces, file_name_for, hint_is_fresh, next, told, Acquired, CatalogError, Happened,
    Reason, Resolved, Stage,
};
use tigersetup_engine::dependency::detect::{best_of, detect, is_version, Detection};
use tigersetup_engine::dependency::pattern::Pattern;
use tigersetup_engine::dependency::{
    attach, failure_outcome, launch_of, one, record_events, run, source_name, statuses,
    Conditions, LaunchError, PhaseOutcome, Standing, Why, World,
};
use tigersetup_engine::engine::package::Package;
use tigersetup_engine::identity::{is_above_of, version_satisfies};
use tigersetup_engine::machine::{Data, KeyPath, Machine, ValueSeen};
use tigersetup_engine::metadata::{
    Acquisition, AcquisitionSource, Dependency, Detector, DetectorKind, Metadata, OptionValue,
    Predicate,
};
use tigersetup_engine::report::documents::Outcome;
use tigersetup_engine::resource::predicate::Options;

fn matches(pattern: &str, text: &str) -> bool {
    Pattern::compile(pattern).unwrap().is_match(text)
}

#[test]
fn whole_string_case_insensitive_matching() {
    assert!(matches("10.*", "10.0.11"));
    assert!(matches("10.*", "10"));
    assert!(!matches("10\\..*", "10"));
    assert!(matches("10\\..*", "10.0.11"));
    assert!(!matches("10\\..*", "110.0.1"));
    assert!(!matches("10.*", "9.0.5"));
    assert!(matches("microsoft edge webview2 runtime", "Microsoft Edge WebView2 Runtime"));
    assert!(matches(
        "Microsoft Windows Desktop Runtime.*\\(x64\\)",
        "Microsoft Windows Desktop Runtime 10.0.11 (x64)"
    ));
    assert!(!matches(
        "Microsoft Windows Desktop Runtime.*\\(x64\\)",
        "Microsoft Windows Desktop Runtime 10.0.11 (x86)"
    ));
    assert!(matches("^\\d+(\\.\\d+){1,3}$", "10.0.4191.53"));
    assert!(!matches("^\\d+(\\.\\d+){1,3}$", "10.0.4191.53.1"));
    assert!(matches("[0-9]+", "2026"));
    assert!(!matches("[^0-9]+", "2026"));
    assert!(matches("(a|b)c?", "B"));
    assert!(matches("x{2}", "XX"));
    assert!(!matches("x{2}", "x"));
    assert!(matches("\\w+\\s\\w+", "hello world"));
    assert!(matches("(a*)*b", "aaab"), "empty repetitions do not loop");
    assert!(matches("", ""));
    assert!(!matches("", "x"));
}

#[test]
fn invalid_patterns_are_refused() {
    for bad in ["(", ")", "[abc", "*a", "a{3,1}", "a{x}", "(?x)", "\\"] {
        assert_eq!(Pattern::compile(bad).unwrap_err().code, "metadata_invalid", "{bad}");
    }
    assert_eq!(Pattern::compile("(").unwrap_err().message, "pattern \"(\": unclosed group");
}

#[test]
fn patterns_say_what_they_were_compiled_from() {
    let p = Pattern::compile("^(?:ab|c)[]x-z-]{2,}$").unwrap();
    assert_eq!(p.source(), "^(?:ab|c)[]x-z-]{2,}$");
    assert!(p.is_match("AB]-"));
    assert!(p.is_match("cxyz"));
    assert!(!p.is_match("c]"));
    assert!(matches("É+", "éÉ"), "beyond ASCII too");
    assert!(!matches("(a?){2}", "a"), "an empty repetition does not count");
    assert!(matches("a{0,99999999999}", "aaaa"), "a bound that does not fit is none");
}

#[test]
fn version_strings_are_recognised() {
    assert!(is_version("10.0.11"));
    assert!(is_version("152"));
    assert!(!is_version("0.0.0.0"));
    assert!(!is_version(""));
    assert!(!is_version("11.0.0-preview"));
    assert!(!is_version("v1"));
}

fn words(v: &[&str]) -> Vec<String> {
    v.iter().map(|s| s.to_string()).collect()
}

#[test]
fn versions_compare_by_number_and_satisfy_within_their_major() {
    assert!(is_above_of("10.0.11", "10.0.9"));
    assert!(!is_above_of("10.0", "10.0.0"));
    assert!(is_above_of("10.0.0.1", "10"));
    assert!(version_satisfies("10.0.11", "10.0"));
    assert!(!version_satisfies("11.0", "10.0"));
    assert!(!version_satisfies("10.0.11", "10.0.12"));
    assert!(version_satisfies("3", ""));
    assert_eq!(
        best_of(&words(&["10.0.9", "x", "10.0.11", "10.0.11.0"]), "10"),
        Detection::Present { version: "10.0.11".into() }
    );
}

fn detector(kind: DetectorKind) -> Detector {
    Detector { kind, ..Default::default() }
}

#[test]
fn directory_versions_pick_the_highest_satisfying_subdirectory() {
    let mut m = Machine::empty();
    m.environment.push(("TEMP".into(), "C:\\Temp\\".into()));
    for name in ["9.0.5", "10.0.9", "10.0.11", "11.0.0-preview", "notes.txt"] {
        m.directories.push(format!("C:\\Temp\\detect\\{name}"));
    }
    m.directories.push("C:\\Temp\\detect\\10.0.9\\10.0.99".into());
    let mut d = detector(DetectorKind::DirectoryVersion);
    d.path = "%TEMP%\\detect".into();
    d.pattern = "10\\..*".into();
    assert_eq!(
        detect(&d, "10.0", &m).unwrap(),
        Detection::Present { version: "10.0.11".into() }
    );
    assert_eq!(
        detect(&d, "10.0.12", &m).unwrap(),
        Detection::Absent { found: Some("10.0.11".into()) }
    );
    d.pattern = String::new();
    assert_eq!(
        detect(&d, "9.0", &m).unwrap(),
        Detection::Present { version: "9.0.5".into() }
    );
    assert_eq!(
        detect(&d, "11.0", &m).unwrap(),
        Detection::Absent { found: Some("10.0.11".into()) }
    );
    for spelt in ["%TEMP%\\detect\\", "C:/temp/DETECT", "C:\\Temp\\x\\..\\detect"] {
        d.path = spelt.into();
        assert_eq!(
            detect(&d, "9.0", &m).unwrap(),
            Detection::Present { version: "9.0.5".into() }
        );
    }
    d.path = "%TIGERSETUP_TEST_ROOT%\\missing".into();
    assert_eq!(detect(&d, "", &m).unwrap(), Detection::Absent { found: None });
    d.path = "%TIGERSETUP_UNSET_VARIABLE%\\dotnet".into();
    assert_eq!(detect(&d, "", &m).unwrap(), Detection::Absent { found: None });
    d.pattern = "(".into();
    assert_eq!(detect(&d, "", &m).unwrap_err().code, "metadata_invalid");
}

fn set(m: &mut Machine, key: &str, values: &[(&str, &str)]) {
    let key = KeyPath::parse(key).unwrap();
    m.keys.push(key.clone());
    for (name, data) in values {
        m.values.push(ValueSeen {
            key: key.clone(),
            name: name.to_string(),
            data: Data::String(data.to_string()),
        });
    }
}

#[test]
fn registry_versions_try_keys_in_order_and_ignore_the_nothing_value() {
    let mut m = Machine::empty();
    set(&mut m, "HKCU\\Scratch\\Clients\\{A}", &[("pv", "0.0.0.0")]);
    set(&mut m, "HKCU\\Scratch\\Clients\\{B}", &[("pv", "152.0.4191.53")]);
    set(&mut m, "HKCU\\Scratch\\Clients\\{C}", &[("pv", "")]);
    let mut d = detector(DetectorKind::RegistryVersion);
    d.keys = words(&[
        "HKCU\\Scratch\\Clients\\{A}",
        "HKCU\\Scratch\\Missing",
        "HKCU\\Scratch\\Clients\\{B}",
        "HKCU\\Scratch\\Clients\\{C}",
    ]);
    d.value = "pv".into();
    assert_eq!(
        detect(&d, "", &m).unwrap(),
        Detection::Present { version: "152.0.4191.53".into() }
    );
    assert_eq!(
        detect(&d, "153.0", &m).unwrap(),
        Detection::Absent { found: Some("152.0.4191.53".into()) }
    );
    d.keys = words(&["HKCU\\Scratch\\Clients\\{A}"]);
    assert_eq!(detect(&d, "", &m).unwrap(), Detection::Absent { found: None });
}

#[test]
fn file_versions_come_from_the_version_resource() {
    let mut m = Machine::empty();
    m.environment.push(("SystemRoot".into(), "C:\\Windows".into()));
    m.file_versions
        .push(("C:\\Windows\\System32\\kernel32.dll".into(), "10.0.26100.1".into()));
    let mut d = detector(DetectorKind::FileVersion);
    d.path = "%SystemRoot%\\System32\\kernel32.dll".into();
    assert_eq!(
        detect(&d, "", &m).unwrap(),
        Detection::Present { version: "10.0.26100.1".into() }
    );
    assert_eq!(detect(&d, "10.0", &m).unwrap().version(), Some("10.0.26100.1"));
    assert_eq!(
        detect(&d, "99.0", &m).unwrap(),
        Detection::Absent { found: Some("10.0.26100.1".into()) }
    );
    d.path = "%SystemRoot%\\System32\\no-such-file.dll".into();
    assert_eq!(detect(&d, "", &m).unwrap(), Detection::Absent { found: None });
    assert_eq!(
        detect(&Detector::default(), "", &m).unwrap_err().message,
        "unknown detector kind 0"
    );
}

#[test]
fn registrations_match_display_names_under_the_given_roots() {
    let mut m = Machine::empty();
    set(
        &mut m,
        "HKCU\\Scratch\\Uninstall\\{96749152}",
        &[
            ("DisplayName", "Microsoft Windows Desktop Runtime 10.0.11 (x64)"),
            ("DisplayVersion", "10.0.11.50000"),
        ],
    );
    set(
        &mut m,
        "HKCU\\Scratch\\Uninstall\\{6E0832BF}",
        &[
            ("DisplayName", "Microsoft Windows Desktop Runtime 10.0.11 (x86)"),
            ("DisplayVersion", "10.0.11.50000"),
        ],
    );
    set(
        &mut m,
        "HKCU\\Scratch\\Uninstall\\NoVersion",
        &[("DisplayName", "Something Else")],
    );
    set(
        &mut m,
        "HKCU\\SOFTWARE\\Microsoft\\Windows\\CurrentVersion\\Uninstall\\Ours",
        &[("DisplayName", "Ours"), ("DisplayVersion", "2.1")],
    );
    let mut d = detector(DetectorKind::Registration);
    d.keys = words(&["HKCU\\Scratch\\Uninstall"]);
    d.pattern = "Microsoft Windows Desktop Runtime .* \\(x64\\)".into();
    assert_eq!(
        detect(&d, "10.0", &m).unwrap(),
        Detection::Present { version: "10.0.11.50000".into() }
    );
    assert_eq!(detect(&d, "11.0", &m).unwrap().version(), None);
    d.pattern = "Nothing Like This".into();
    assert_eq!(detect(&d, "", &m).unwrap(), Detection::Absent { found: None });
    d.keys.clear();
    d.pattern = "TigerSetup test entry that no machine has [0-9]{12}".into();
    assert_eq!(detect(&d, "", &m).unwrap(), Detection::Absent { found: None });
    d.pattern = "ours".into();
    assert_eq!(detect(&d, "2", &m).unwrap().version(), Some("2.1"));
}

#[test]
fn hint_freshness_follows_age_and_lifetime() {
    let mut hint =
        Acquisition { resolved_at: 1_000_000, max_age_days: 14, ..Default::default() };
    assert!(hint_is_fresh(&hint, 1_000_000 + 13 * 86_400));
    assert!(!hint_is_fresh(&hint, 1_000_000 + 15 * 86_400));
    hint.max_age_days = 0;
    assert!(hint_is_fresh(&hint, i64::MAX));
    hint.max_age_days = 1;
    hint.resolved_at = 0;
    assert!(!hint_is_fresh(&hint, 10), "an unknown age is stale");
}

#[test]
fn download_names_come_from_the_url_or_the_id() {
    assert_eq!(
        file_name_for(
            "https://x.invalid/a/windowsdesktop-runtime-10.0.11-win-x64.exe",
            "Microsoft.DotNet.DesktopRuntime.10",
            "burn"
        ),
        "windowsdesktop-runtime-10.0.11-win-x64.exe"
    );
    assert_eq!(
        file_name_for("https://x.invalid/download?id=5", "Vendor.Thing", "msi"),
        "Vendor-Thing.msi"
    );
    assert_eq!(
        file_name_for("https://x.invalid/", "Vendor.Thing", "exe"),
        "Vendor-Thing.exe"
    );
    assert_eq!(file_name_for("not a url", "V", "exe"), "V.exe");
}

#[test]
fn a_download_is_announced_at_its_start_its_end_and_every_two_percent() {
    assert_eq!(announces(None, 0, 100), (true, 0));
    assert_eq!(announces(Some(0), 1, 100), (false, 0));
    assert_eq!(announces(Some(0), 2, 100), (true, 1));
    assert_eq!(announces(Some(50), 100, 100), (true, 50));
    assert_eq!(announces(Some(0), 4_194_304, 0), (true, 1));
    assert_eq!(announces(Some(0), u64::MAX, u64::MAX), (true, 50));
}

fn dependency(source: AcquisitionSource) -> Dependency {
    Dependency {
        id: "Vendor.Thing".into(),
        display_name: "Thing".into(),
        minimum_version: "2.0".into(),
        acquisition: Acquisition {
            source,
            url: "https://x.invalid/thing.exe".into(),
            sha256: "ab".into(),
            version: "2.1".into(),
            entry: "deps/thing-setup.exe".into(),
            max_age_days: 0,
            ..Default::default()
        },
        ..Default::default()
    }
}

fn got(stage: &Stage) -> &Acquired {
    match stage {
        Stage::Done(a) => a,
        other => panic!("not acquired: {other:?}"),
    }
}

#[test]
fn an_embedded_installer_is_extracted_and_held_to_its_hash() {
    let d = dependency(AcquisitionSource::Embedded);
    let (stage, events) = acquire(&d, "C:\\S\\deps", true, 0);
    assert!(events.is_empty());
    assert!(
        matches!(&stage, Stage::Extract { path } if path == "C:\\S\\deps\\thing-setup.exe")
    );
    let done = next(stage, Happened::Extracted(Ok("ab".into())), &d, "C:\\S\\deps");
    assert_eq!(got(&done).url, "payload:deps/thing-setup.exe");
    let (stage, _) = acquire(&d, "C:\\S\\deps", true, 0);
    let failed = next(stage, Happened::Extracted(Ok("cd".into())), &d, "C:\\S\\deps");
    match failed {
        Stage::Failed(e) => {
            assert_eq!(e.reason.code(), "hash_mismatch");
            assert_eq!(
                e.message,
                "embedded installer deps/thing-setup.exe has SHA-256 cd, the package recorded ab"
            );
        }
        other => panic!("{other:?}"),
    }
    let (stage, _) = acquire(&d, "C:\\S\\deps", false, 0);
    assert!(matches!(stage, Stage::Failed(e) if e.reason == Reason::DownloadFailed));
}

#[test]
fn a_hint_that_fails_is_refreshed_and_a_url_never_is() {
    let d = dependency(AcquisitionSource::Winget);
    let (stage, _) = acquire(&d, "C:\\S\\deps", false, 0);
    let failure = || CatalogError::new(Reason::DownloadFailed, "no route");
    let happened = Happened::Downloaded(Err(failure()));
    assert_eq!(told(&stage, &happened, &d)[0].code, "dependency_hint_failed");
    assert!(told(&stage, &happened, &d)[0].progress.is_none());
    let stage = next(stage, happened, &d, "C:\\S\\deps");
    match &stage {
        Stage::Resolve { package, architecture } => {
            assert_eq!((package.as_str(), architecture.as_str()), ("Vendor.Thing", "x64"))
        }
        other => panic!("{other:?}"),
    }
    let found = Resolved {
        version: "2.5".into(),
        installer_type: "msi".into(),
        scope: "Machine".into(),
        url: "https://x.invalid/new".into(),
        sha256: "ef".into(),
        elevation_required: true,
        arguments: words(&["/q"]),
        success_codes: vec![0],
        reboot_codes: vec![3010],
    };
    let resolved = Happened::Resolved(Ok(found));
    assert_eq!(
        told(&stage, &resolved, &d)[0].message,
        format!("{}: catalog version 2.5 type msi scope Machine elevation true url https://x.invalid/new sha256 ef", d.id)
    );
    let stage = next(stage, resolved, &d, "C:\\S\\deps");
    let stage = next(stage, Happened::Downloaded(Ok("ef".into())), &d, "C:\\S\\deps");
    let a = got(&stage);
    assert_eq!(a.path, "C:\\S\\deps\\Vendor-Thing.msi");
    assert!(a.refreshed && a.elevation_required);
    assert_eq!(a.arguments, ["/q"]);
    let (program, arguments) = launch_of(a, &Machine::empty());
    assert_eq!(program, "C:\\Windows\\System32\\msiexec.exe");
    assert_eq!(
        arguments,
        ["/i", "C:\\S\\deps\\Vendor-Thing.msi", "/qn", "/norestart", "/q"]
    );

    let d = dependency(AcquisitionSource::Url);
    let (stage, _) = acquire(&d, "C:\\S\\deps", false, 0);
    let stage = next(stage, Happened::Downloaded(Err(failure())), &d, "C:\\S\\deps");
    assert!(matches!(stage, Stage::Failed(_)));

    let mut stale = dependency(AcquisitionSource::Winget);
    stale.acquisition.max_age_days = 3;
    stale.acquisition.resolved_at = 1;
    let (stage, events) = acquire(&stale, "C:\\S\\deps", false, 10_000_000);
    assert!(events[0].progress.is_none());
    assert!(matches!(stage, Stage::Resolve { .. }));
    assert_eq!(
        events[0].message,
        "Vendor.Thing: hint resolved at 1 is older than 3 days; refreshing from the catalog"
    );
    let (stage, _) = acquire(&dependency(AcquisitionSource::Unspecified), "C:\\d", false, 0);
    assert!(matches!(stage, Stage::Failed(e) if e.reason == Reason::NoCompatibleVersion));
}

fn absent() -> Detection {
    Detection::Absent { found: None }
}

fn present(version: &str) -> Detection {
    Detection::Present { version: version.into() }
}

fn conditions() -> Conditions {
    Conditions { install_dependencies: true, quiet: true, elevated: false }
}

fn acquired(reboot: bool) -> Acquired {
    Acquired {
        path: "C:\\S\\deps\\thing.exe".into(),
        url: "https://x.invalid/thing.exe".into(),
        sha256: "ab".into(),
        version: "2.1".into(),
        installer_type: "exe".into(),
        arguments: words(&["/S"]),
        success_codes: vec![],
        reboot_codes: if reboot { vec![3010] } else { vec![] },
        elevation_required: false,
        refreshed: false,
    }
}

#[test]
fn a_missing_dependency_is_acquired_installed_and_detected_again() {
    let d = dependency(AcquisitionSource::Url);
    let c = conditions();
    let mut w = World::new();
    assert_eq!(one(&d, c, &w), Standing::Detect);
    w.detected = Some(Ok(absent()));
    assert_eq!(one(&d, c, &w), Standing::Prepare);
    w.prepared = Some(Ok(()));
    assert_eq!(one(&d, c, &w), Standing::Acquire);
    w.acquired = Some(Ok(acquired(true)));
    assert_eq!(one(&d, c, &w), Standing::Install);
    w.ran = Some(Ok(3010));
    assert_eq!(one(&d, c, &w), Standing::Verify);
    w.verified = Some(Ok(present("2.1.0")));
    assert_eq!(one(&d, c, &w), Standing::Installed);

    let all = vec![d];
    let r = run(&all, &vec![w], &Options::new(), c, "C:\\S\\deps", "2026-01-01T00:00:00.000Z");
    assert!(r.next.is_none() && r.outcome.failure.is_none());
    assert!(r.outcome.reboot_required);
    assert_eq!(r.outcome.records[0].status, "installed");
    assert_eq!(r.outcome.records[0].action, "reboot_required");
    assert_eq!(r.outcome.records[0].version.as_deref(), Some("2.1.0"));
    let actions: Vec<&str> = r.outcome.events.iter().map(|e| e.action.as_str()).collect();
    assert_eq!(actions, ["acquired", "installed", "reboot_required"]);
    let mut rows = Vec::new();
    record_events(&mut rows, &r.outcome);
    assert_eq!(rows, r.outcome.events);
    let mut outcome = Outcome::new("installed", "ok", 0, "");
    attach(&mut outcome, &r.outcome);
    assert_eq!((outcome.exit_code, outcome.reboot_required), (3010, true));
    assert_eq!(outcome.dependencies.len(), 1);
}

#[test]
fn a_fault_around_the_installer_fails_the_dependency() {
    let c = conditions();
    let all = vec![dependency(AcquisitionSource::Url)];
    let mut w = World::new();
    w.detected = Some(Ok(absent()));
    w.prepared = Some(Ok(()));
    w.acquired = Some(Ok(acquired(false)));
    w.fault_before = Some("injected".into());
    assert_eq!(one(&all[0], c, &w), Standing::Failed(Why::FaultBefore));
    let r = run(&all, &vec![w], &Options::new(), c, "C:\\S\\deps", "2026-01-01T00:00:00.000Z");
    let failure = r.outcome.failure.unwrap();
    assert_eq!((failure.code, failure.message.as_str()), ("dependency_install_failed", "injected"));
    assert_eq!(r.outcome.records[0].status, "install_failed");
    assert_eq!(r.outcome.records[0].exit_code, None);

    let mut w = World::new();
    w.detected = Some(Ok(absent()));
    w.prepared = Some(Ok(()));
    w.acquired = Some(Ok(acquired(false)));
    w.ran = Some(Ok(0));
    w.fault_after = Some("injected".into());
    assert_eq!(one(&all[0], c, &w), Standing::Failed(Why::FaultAfter));
    let r = run(&all, &vec![w], &Options::new(), c, "C:\\S\\deps", "2026-01-01T00:00:00.000Z");
    let failure = r.outcome.failure.unwrap();
    assert_eq!((failure.code, failure.message.as_str()), ("dependency_unverified", "injected"));
    assert_eq!(r.outcome.records[0].status, "unverified");
    assert_eq!(r.outcome.records[0].exit_code, None);
}

#[test]
fn a_payload_is_opened_only_for_an_embedded_installer() {
    let c = conditions();
    let d = dependency(AcquisitionSource::Embedded);
    let mut w = World::new();
    w.payload_error = Some("gone".into());
    assert_eq!(one(&d, c, &w), Standing::Detect);
    w.detected = Some(Ok(present("2.1.0")));
    assert_eq!(one(&d, c, &w), Standing::Present);
    w.detected = Some(Ok(absent()));
    assert_eq!(one(&d, c, &w), Standing::Failed(Why::PayloadUnreadable));
    let off = Conditions { install_dependencies: false, ..c };
    assert_eq!(one(&d, off, &w), Standing::Failed(Why::Disabled));
    let other = dependency(AcquisitionSource::Url);
    assert_eq!(one(&other, c, &w), Standing::Prepare);
}

#[test]
fn every_way_a_dependency_fails_has_its_own_standing() {
    let c = conditions();
    let d = dependency(AcquisitionSource::Url);
    let with = |f: &dyn Fn(&mut World)| {
        let mut w = World::new();
        w.detected = Some(Ok(absent()));
        w.prepared = Some(Ok(()));
        w.acquired = Some(Ok(acquired(false)));
        f(&mut w);
        one(&d, c, &w)
    };
    let broken = || tigersetup_engine::Error::new("metadata_invalid", "x");
    assert_eq!(with(&|w| w.payload_error = Some("gone".into())), Standing::Install);
    assert_eq!(
        with(&|w| w.detected = Some(Err(broken()))),
        Standing::Failed(Why::Undetectable)
    );
    assert_eq!(
        with(&|w| w.prepared = Some(Err("full".into()))),
        Standing::Failed(Why::NotPrepared)
    );
    assert_eq!(
        with(&|w| w.acquired = Some(Err(CatalogError::new(Reason::Cancelled, "")))),
        Standing::Failed(Why::AcquisitionCancelled)
    );
    assert_eq!(
        with(&|w| w.acquired = Some(Err(CatalogError::new(Reason::Other("x"), "")))),
        Standing::Failed(Why::Unacquired)
    );
    assert_eq!(with(&|w| w.cancelled = true), Standing::Failed(Why::Cancelled));
    assert_eq!(
        with(&|w| w.ran = Some(Err(LaunchError::Refused))),
        Standing::Failed(Why::PromptRefused)
    );
    assert_eq!(
        with(&|w| w.ran = Some(Err(LaunchError::Failed("no".into())))),
        Standing::Failed(Why::NotLaunched)
    );
    assert_eq!(with(&|w| w.ran = Some(Ok(7))), Standing::Recheck);
    assert_eq!(
        with(&|w| {
            w.ran = Some(Ok(7));
            w.rechecked = Some(false);
        }),
        Standing::Failed(Why::ExitCode)
    );
    assert_eq!(
        with(&|w| {
            w.ran = Some(Ok(7));
            w.rechecked = Some(true);
        }),
        Standing::Verify
    );
    assert_eq!(
        with(&|w| {
            w.ran = Some(Ok(0));
            w.verified = Some(Ok(absent()));
        }),
        Standing::Failed(Why::Unverified)
    );
    assert_eq!(
        with(&|w| {
            w.ran = Some(Ok(0));
            w.verified = Some(Err(broken()));
        }),
        Standing::Failed(Why::Unverifiable)
    );
    let mut w = World::new();
    w.detected = Some(Ok(absent()));
    let off = Conditions { install_dependencies: false, ..c };
    assert_eq!(one(&d, off, &w), Standing::Failed(Why::Disabled));
    let mut needs = dependency(AcquisitionSource::Url);
    needs.elevation_required = true;
    assert_eq!(one(&needs, c, &w), Standing::Failed(Why::NeedsElevation));
    assert_eq!(
        one(&needs, Conditions { elevated: true, ..c }, &w),
        Standing::Prepare
    );
}

fn package(dependencies: Vec<Dependency>) -> Package {
    let mut metadata = Metadata::default();
    metadata.package.name = "App".into();
    metadata.package.version = "1.0".into();
    metadata.dependencies = dependencies;
    Package {
        metadata,
        metadata_sha256: String::new(),
        path: String::new(),
        uninstaller_scope: None,
        license_sha256: None,
        minimum_build: 0,
        tigersetup_version: String::new(),
        engine_sha256: String::new(),
        engine_block_sha256: String::new(),
    }
}

#[test]
fn the_phase_stops_at_the_first_failure_and_reports_it() {
    let mut gated = dependency(AcquisitionSource::Url);
    gated.id = "Vendor.Gated".into();
    gated.when = Some(Predicate { option: "extras".into(), equals: "true".into() });
    let mut there = dependency(AcquisitionSource::Url);
    there.id = "Vendor.There".into();
    let failing = dependency(AcquisitionSource::Url);
    let mut behind = dependency(AcquisitionSource::Url);
    behind.id = "Vendor.Behind".into();
    let all = vec![gated, there, failing, behind];
    let mut options = Options::new();
    options.insert("extras", OptionValue::Bool(false));
    let mut worlds: Vec<World> = (0..4).map(|_| World::new()).collect();
    let step = |worlds: &Vec<World>| {
        run(&all, worlds, &options, conditions(), "C:\\S\\deps", "now")
    };
    assert_eq!(step(&worlds).next, Some((1, Standing::Detect)));
    worlds[1].detected = Some(Ok(present("2.0")));
    assert_eq!(step(&worlds).next, Some((2, Standing::Detect)));
    worlds[2].detected = Some(Ok(absent()));
    worlds[2].prepared = Some(Ok(()));
    worlds[2].acquired = Some(Ok(acquired(false)));
    worlds[2].ran = Some(Ok(5));
    assert_eq!(step(&worlds).next, Some((2, Standing::Recheck)));
    worlds[2].rechecked = Some(false);
    let r = step(&worlds);
    assert!(r.next.is_none());
    let status: Vec<&str> = r.outcome.records.iter().map(|r| r.status).collect();
    assert_eq!(status, ["not_required", "present", "install_failed"]);
    let failure = r.outcome.failure.as_ref().unwrap();
    assert_eq!(failure.code, "dependency_install_failed");
    assert_eq!(
        failure.message,
        "the installer exited with code 5 (url https://x.invalid/thing.exe)"
    );
    let outcome = failure_outcome(&package(vec![]), "en-US", &r.outcome, failure);
    assert_eq!(outcome.outcome, "failed");
    assert_eq!(outcome.exit_code, 3);
    assert_eq!(outcome.dependency.as_deref(), Some("Vendor.Thing"));
    assert!(outcome.message.contains("Thing"), "{}", outcome.message);
    assert_eq!(outcome.dependencies.len(), 3);
    assert!(PhaseOutcome::default().records.is_empty());
}

#[test]
fn statuses_read_the_machine_in_declaration_order() {
    let mut embedded = dependency(AcquisitionSource::Embedded);
    embedded.detect = detector(DetectorKind::FileVersion);
    embedded.detect.path = "C:\\t.dll".into();
    embedded.display_name = String::new();
    assert_eq!(source_name(&embedded), "embedded");
    let mut m = Machine::empty();
    m.file_versions.push(("C:\\T.DLL".into(), "2.3".into()));
    let all = statuses(&package(vec![embedded]), &m).unwrap();
    assert_eq!(all[0].name, "Vendor.Thing");
    assert_eq!((all[0].status, all[0].version.as_deref()), ("present", Some("2.3")));
    assert_eq!(all[0].embedded.as_ref().unwrap().entry, "deps/thing-setup.exe");
    let unknown = dependency(AcquisitionSource::Url);
    assert_eq!(
        statuses(&package(vec![unknown]), &m).unwrap_err().code,
        "metadata_invalid"
    );
}

#[test]
fn anchors_at_the_ends_say_nothing() {
    for plain in ["a|b", "(x|y){2}", "\\$", "[0-9]+", ""] {
        for text in ["a", "b", "xy", "$", "42", "", "ab"] {
            let expected = matches(plain, text);
            assert_eq!(matches(&format!("^{plain}"), text), expected, "{plain} {text}");
            assert_eq!(matches(&format!("{plain}$"), text), expected, "{plain} {text}");
        }
    }
    assert!(!matches("a$$", "a"), "of two only the last is an anchor");
    assert!(matches("a$$", "a$"));
}

#[test]
fn an_installer_that_failed_and_installed_is_noted() {
    let d = Dependency { id: "V.Dep".into(), ..Default::default() };
    let event = tigersetup_engine::dependency::told::present_anyway(&d, -3);
    assert_eq!(event.code, "dependency_installed_despite_exit_code");
    assert_eq!(event.message, "V.Dep: installer exit code -3, but it is present");
}

#[test]
fn an_installer_is_counted_while_it_is_fetched() {
    let mut d = Dependency { id: "V.Dep".into(), display_name: "Dep".into(), ..Default::default() };
    d.acquisition.entry = "deps/d.exe".into();
    d.acquisition.sha256 = "ab".into();
    d.acquisition.size = 7;
    use_counts(
        &tigersetup_engine::dependency::told::downloading(&d, "https://x.invalid/d", 3, 7),
        "Dep: 3/7 bytes from https://x.invalid/d",
        (3, 7),
    );
    use_counts(
        &tigersetup_engine::dependency::told::downloaded(&d, "C:\\d.exe", 7, "ab"),
        "Dep: 7 bytes, sha256 ab verified, at C:\\d.exe",
        (7, 7),
    );
    use_counts(
        &tigersetup_engine::dependency::told::extracted(&d, "C:\\d.exe"),
        "Dep: 7 bytes from payload entry deps/d.exe, sha256 ab verified, at C:\\d.exe",
        (7, 7),
    );
}

fn use_counts(
    event: &tigersetup_engine::report::documents::Event,
    message: &str,
    counted: (u64, u64),
) {
    assert_eq!(event.message, message);
    let progress = event.progress.as_ref().unwrap();
    assert_eq!((progress.done, progress.total), counted);
    assert_eq!(progress.target, "Dep");
}

#[test]
fn a_download_with_another_hash_is_never_used() {
    let mut d = dependency(AcquisitionSource::Url);
    d.acquisition.url = "https://x.invalid/thing.exe".into();
    d.acquisition.sha256 = "ab".into();
    let (stage, _) = acquire(&d, "C:\\S\\deps", false, 0);
    match &stage {
        Stage::Hint { url, sha256, or_catalog, .. } => {
            assert_eq!((url.as_str(), sha256.as_str()), ("https://x.invalid/thing.exe", "ab"));
            assert!(!or_catalog);
        }
        other => panic!("{other:?}"),
    }
    match next(stage, Happened::Downloaded(Ok("cd".into())), &d, "C:\\S\\deps") {
        Stage::Failed(e) => {
            assert_eq!(e.reason, Reason::HashMismatch);
            assert_eq!(e.message, "https://x.invalid/thing.exe has SHA-256 cd, expected ab");
        }
        other => panic!("{other:?}"),
    }
    d.acquisition.source = AcquisitionSource::Winget;
    d.acquisition.max_age_days = 0;
    let (stage, _) = acquire(&d, "C:\\S\\deps", false, 0);
    let other = Happened::Downloaded(Ok("cd".into()));
    assert_eq!(
        told(&stage, &other, &d)[0].message,
        format!(
            "{}: hash_mismatch: https://x.invalid/thing.exe has SHA-256 cd, expected ab; refreshing from the catalog",
            d.id
        )
    );
    let stage = next(stage, other, &d, "C:\\S\\deps");
    assert!(matches!(stage, Stage::Resolve { .. }), "a damaged hint is refreshed");
    let found = Resolved {
        version: "2".into(),
        installer_type: "exe".into(),
        scope: "User".into(),
        url: "https://x.invalid/new.exe".into(),
        sha256: "ef".into(),
        elevation_required: false,
        arguments: vec![],
        success_codes: vec![],
        reboot_codes: vec![],
    };
    let stage = next(stage, Happened::Resolved(Ok(found)), &d, "C:\\S\\deps");
    let stage = next(stage, Happened::Downloaded(Ok("00".into())), &d, "C:\\S\\deps");
    assert!(matches!(stage, Stage::Failed(e) if e.reason == Reason::HashMismatch));
}
