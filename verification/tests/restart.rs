use tigersetup_engine::machine::{FileSeen, LinkInspection, LinkSeen, Machine};
use tigersetup_engine::plan::operation::PlannedOperation;
use tigersetup_engine::report::documents::{
    Answer, Event, EventSink, HolderInfo, HolderKind, NullSink, Question,
};
use tigersetup_engine::restart::{
    acquire, after_listing, classify, describe, describe_holders, failed, file_time, files_at_risk,
    is_running, keeps_waiting, next, shutdown_grace, still_running, Application, Happened, Listed,
    Listing, Quiescence, Session, Sighting, Stage, OTHER_SHUTDOWN_GRACE, WINDOWED_SHUTDOWN_GRACE,
};
use tigersetup_engine::state::journal::OpKind;

fn planned(kind: OpKind, target: &str) -> PlannedOperation {
    PlannedOperation::new(kind, target)
}

fn file(path: &str) -> FileSeen {
    FileSeen { path: path.into(), sha256: "00".into(), size: 1, modified: None }
}

#[test]
fn only_the_existing_files_a_plan_writes_over_are_registered() {
    let root = "C:\\root";
    let mut m = Machine::empty();
    for relative in ["bin\\app.exe", "bin\\kept.dll", "doc\\old.md"] {
        m.files.push(file(&format!("{root}\\{relative}")));
    }
    let link = "C:\\root\\Menu\\TestApp.lnk";
    m.links.push(LinkSeen { path: link.into(), found: LinkInspection::NotALink });

    let operations = vec![
        planned(OpKind::InstallFile, "bin\\app.exe"),
        planned(OpKind::KeepFile, "bin\\kept.dll"),
        planned(OpKind::RemoveFile, "doc\\old.md"),
        planned(OpKind::CreateDirectory, "bin"),
        planned(OpKind::CreateShortcut, link),
        planned(OpKind::SetRegistryValue, "HKCU\\Software\\TestApp"),
        // A file the plan adds is not on the machine yet.
        planned(OpKind::InstallFile, "bin\\new.dll"),
        // The same file twice is registered once.
        planned(OpKind::InstallFile, "bin\\app.exe"),
    ];
    assert_eq!(
        files_at_risk(&operations, root, &m),
        [link, "C:\\root\\bin\\app.exe", "C:\\root\\doc\\old.md"]
    );
    assert!(files_at_risk(&vec![], root, &m).is_empty());
}

#[test]
fn paths_are_ordered_by_their_components() {
    let mut m = Machine::empty();
    m.files.push(file("C:\\root\\a b"));
    m.files.push(file("C:\\root\\a\\x"));
    let operations = vec![
        planned(OpKind::InstallFile, "a b"),
        planned(OpKind::InstallFile, "a\\x"),
    ];
    assert_eq!(files_at_risk(&operations, "C:\\root", &m), ["C:\\root\\a\\x", "C:\\root\\a b"]);
}

#[test]
fn two_spellings_of_a_path_are_one_file() {
    let mut m = Machine::empty();
    m.files.push(file("C:\\root\\b"));
    m.files.push(file("C:\\root\\a"));
    let operations = vec![
        planned(OpKind::InstallFile, "b"),
        planned(OpKind::RemoveShortcut, "c:/root//b"),
        planned(OpKind::CreateShortcut, "C:\\root\\.\\a"),
        planned(OpKind::InstallFile, "a"),
        planned(OpKind::RemoveShortcut, "C:\\root\\A"),
    ];
    assert_eq!(
        files_at_risk(&operations, "C:\\root", &m),
        ["C:\\root\\A", "C:\\root\\.\\a", "C:\\root\\b"]
    );
}

#[test]
fn a_plan_that_writes_nothing_opens_no_session() {
    match acquire(&vec![]) {
        Stage::Done(q) => {
            assert!(q.closed().is_empty());
            assert!(q.release(Ok(())).is_none());
        }
        other => panic!("{other:?}"),
    }
    assert!(Quiescence::none().closed().is_empty());
}

#[test]
fn holders_read_as_name_process_id_and_what_windows_can_ask() {
    assert_eq!(describe_holders(&[]), "");
    assert_eq!(
        describe_holders(&[
            HolderInfo {
                name: "TestApp".into(),
                process_id: 42,
                restartable: true,
                kind: HolderKind::MainWindow,
                started_at: 0,
            },
            HolderInfo {
                name: "Other".into(),
                process_id: 7,
                restartable: false,
                kind: HolderKind::Unknown,
                started_at: 0,
            },
        ]),
        "TestApp (42, main window), Other (7, no window)"
    );
}

fn holder(kind: HolderKind) -> HolderInfo {
    HolderInfo { name: "Holder".into(), process_id: 1, restartable: false, kind, started_at: 0 }
}

#[test]
fn a_windowed_holder_is_given_longer_than_one_windows_cannot_ask() {
    assert_eq!(shutdown_grace(&[holder(HolderKind::MainWindow)]), WINDOWED_SHUTDOWN_GRACE);
    assert_eq!(shutdown_grace(&[holder(HolderKind::OtherWindow)]), WINDOWED_SHUTDOWN_GRACE);
    assert_eq!(shutdown_grace(&[holder(HolderKind::Console)]), OTHER_SHUTDOWN_GRACE);
    assert_eq!(shutdown_grace(&[holder(HolderKind::Unknown)]), OTHER_SHUTDOWN_GRACE);
    assert_eq!(
        shutdown_grace(&[holder(HolderKind::Console), holder(HolderKind::MainWindow)]),
        WINDOWED_SHUTDOWN_GRACE
    );
    assert_eq!(shutdown_grace(&[]), OTHER_SHUTDOWN_GRACE);
    assert_eq!((WINDOWED_SHUTDOWN_GRACE, OTHER_SHUTDOWN_GRACE), (60, 10));
}

#[test]
fn every_restart_manager_application_type_reads_back() {
    assert_eq!(classify(1), HolderKind::MainWindow);
    assert_eq!(classify(2), HolderKind::OtherWindow);
    assert_eq!(classify(3), HolderKind::Service);
    assert_eq!(classify(4), HolderKind::Explorer);
    assert_eq!(classify(5), HolderKind::Console);
    assert_eq!(classify(1000), HolderKind::Critical);
    assert_eq!(classify(0), HolderKind::Unknown);
    assert_eq!(classify(-1), HolderKind::Unknown);
}

#[test]
fn a_reused_process_id_is_not_the_holder() {
    let mut h = holder(HolderKind::MainWindow);
    h.started_at = 5;
    assert!(!is_running(&h, Sighting::NoSuchProcess));
    assert!(is_running(&h, Sighting::CannotTell));
    assert!(is_running(&h, Sighting::Process { ended: false, started_at: 5 }));
    assert!(!is_running(&h, Sighting::Process { ended: false, started_at: 6 }));
    assert!(!is_running(&h, Sighting::Process { ended: true, started_at: 5 }));
    assert!(keeps_waiting(&vec![h], 9, 10));
    assert!(!keeps_waiting(&vec![holder(HolderKind::Console)], 10, 10));
    assert!(!keeps_waiting(&vec![], 0, 10));
}

#[test]
fn holders_are_closed_and_reported_or_the_run_is_refused() {
    let start = acquire(&vec!["C:\\a.exe".into()]);
    let (stage, events) = next(start, Happened::Started(Ok(())), true);
    assert!(events.is_empty());
    let mut listed = holder(HolderKind::MainWindow);
    listed.restartable = true;
    let (stage, events) = next(stage, Happened::Listed(Ok(vec![listed])), true);
    assert_eq!(events[0].code, "restart_manager_holders");
    assert!(matches!(stage, Stage::Close(_)), "a quiet run asks nobody");
    let (stage, _) = next(stage, Happened::Asked(Err("busy".into())), true);
    let (stage, events) = next(stage, Happened::Remaining(vec![]), true);
    assert!(events.iter().all(|event| event.progress.is_none()));
    assert_eq!(events.len(), 2);
    match stage {
        Stage::Done(q) => {
            assert_eq!(q.closed().len(), 1);
            assert_eq!(
                q.release(Ok(())).unwrap().message,
                "restarted=1 closed=1 Holder (1, main window)"
            );
            assert_eq!(q.release(Err("no".into())).unwrap().code, "restart_manager_failed");
            assert!(q.release(Ok(())).unwrap().progress.is_none());
        }
        other => panic!("{other:?}"),
    }

    let (stage, _) = next(
        Stage::List,
        Happened::Listed(Ok(vec![holder(HolderKind::Console)])),
        false,
    );
    let (refused, _) = next(stage, Happened::Answered(Answer::Cancel), false);
    match refused {
        Stage::Refused(e) => {
            assert_eq!(e.code, "cancelled");
            assert_eq!(e.message, "Holder (1, console) is in use and was left running");
        }
        other => panic!("{other:?}"),
    }
    let (stuck, _) = next(
        Stage::Wait(vec![holder(HolderKind::Console)], Some("busy".into())),
        Happened::Remaining(vec![holder(HolderKind::Console)]),
        true,
    );
    match stuck {
        Stage::Refused(e) => {
            assert_eq!(e.code, "package_in_use");
            assert_eq!(e.message, "Holder (1, console) is still running: busy");
            assert_eq!(e.exit_code(), 6);
        }
        other => panic!("{other:?}"),
    }
    let (stage, events) = next(Stage::Start, Happened::Started(Err("off".into())), true);
    assert!(matches!(stage, Stage::Done(_)), "no Restart Manager is no reason to stop");
    assert_eq!(events[0].code, "restart_manager_unavailable");
}

#[test]
fn a_session_counts_what_is_registered_in_it() {
    let mut s = Session::start(9);
    s.register(3);
    s.register(2);
    assert_eq!((s.handle(), s.registered()), (9, 5));
}

#[test]
fn a_sink_that_nobody_answers_for_proceeds() {
    let mut sink = NullSink;
    sink.event(&Event { code: "x", message: String::new(), progress: None });
    assert_eq!(sink.question(&Question::CloseApplications(&vec![])), Answer::Close);
}

#[test]
fn an_installer_is_none_of_the_holders_it_lists() {
    let application = |process_id: u32, application_type: i32| Application {
        name: format!("p{process_id}"),
        process_id,
        restartable: false,
        application_type,
        started_at: file_time(1, 2),
    };
    let list = vec![application(7, 1), application(8, 3), application(9, 0)];
    let holders = describe(&list, 8);
    assert_eq!(holders.len(), 2);
    assert_eq!((holders[0].process_id, holders[0].kind), (7, HolderKind::MainWindow));
    assert_eq!((holders[1].process_id, holders[1].kind), (9, HolderKind::Unknown));
    assert_eq!(holders[0].started_at, 0x1_0000_0002);
    let seen = vec![
        Sighting::Process { ended: false, started_at: 5 },
        Sighting::CannotTell,
    ];
    let remaining = still_running(&holders, &seen);
    assert_eq!(remaining.len(), 1, "another process wears the first one's id");
    assert_eq!(remaining[0].process_id, 9);
}

#[test]
fn a_growing_list_is_asked_for_again_and_given_up_at_last() {
    assert!(matches!(after_listing(Listed::Complete, 1), Listing::Take));
    assert!(matches!(after_listing(Listed::MoreData { needed: 0 }, 1), Listing::Again(1)));
    assert!(matches!(after_listing(Listed::MoreData { needed: 4 }, 7), Listing::Again(4)));
    match after_listing(Listed::MoreData { needed: 4 }, 8) {
        Listing::Refused(err) => {
            assert_eq!(err.code, "restart_manager_failed");
            assert_eq!(err.message, "the list of applications holding the files kept growing");
        }
        other => panic!("{other:?}"),
    }
    match after_listing(Listed::Failed("no".into()), 1) {
        Listing::Refused(err) => assert_eq!(
            err.message,
            "the Restart Manager could not list the applications: no"
        ),
        other => panic!("{other:?}"),
    }
    assert_eq!(failed("start a session", "busy").code, "restart_manager_failed");
}
