use tigersetup_engine::machine::{FileSeen, LinkInspection, LinkSeen, Machine};
use tigersetup_engine::paths::{before, leads_to, parts_of, place_of, same_path_of, starts_with, Kind};
use tigersetup_engine::plan::target::absolute;

#[test]
fn paths_are_compared_part_by_part() {
    assert!(same_path_of("c:\\P\\.\\Q\\", "C:/P//Q"), "a drive has no case");
    assert!(!same_path_of("C:\\p", "C:\\P"));
    assert!(!same_path_of("C:P", "C:\\P"));
    assert!(!same_path_of("\\\\s\\P", "\\s\\P"));
    assert!(same_path_of("\\\\s\\P", "//s/P/"));
    assert!(same_path_of("\\\\s", "\\s"), "a server alone is no prefix");
    assert!(!same_path_of(".\\a", "a"));
    assert!(same_path_of("a\\.\\b", "a\\b"));
    assert!(!same_path_of("a\\..\\b", "b"));
    let kinds: Vec<Kind> = parts_of("\\\\s\\P\\..\\a").iter().map(|part| part.kind).collect();
    assert_eq!(kinds, [Kind::Server, Kind::Share, Kind::Root, Kind::Parent, Kind::Normal]);
}

#[test]
fn paths_sort_by_their_parts() {
    let sorted = [
        "\\\\s\\t\\a",
        "\\\\s\\u",
        "C:\\a",
        "C:\\a\\b",
        "C:\\a b",
        "C:a",
        "d:\\",
        "\\a",
        ".\\a",
        "..\\a",
        "B",
        "a",
    ];
    for (i, a) in sorted.iter().enumerate() {
        for (j, b) in sorted.iter().enumerate() {
            assert_eq!(before(a, b), i < j, "{a} and {b}");
        }
    }
    assert!(!before("C:\\a", "c:/a/"));
}

#[test]
fn a_path_lies_below_another_only_by_whole_parts() {
    assert!(starts_with("C:\\a\\b", "c:/a"));
    assert!(starts_with("C:\\a", "C:\\a\\"));
    assert!(!starts_with("C:\\ab", "C:\\a"));
    assert!(!starts_with("C:\\a", "C:\\a\\b"));
}

#[test]
fn a_place_has_many_spellings() {
    let there = place_of("C:\\Program Files\\App");
    assert!(leads_to("c:/program files//x/../APP/.", &there));
    assert!(leads_to("C:\\..\\Program Files\\App\\", &there));
    assert!(!leads_to("C:\\Program Files", &there));
    assert!(leads_to("..\\a", &place_of(".\\..\\A")));
    assert!(!leads_to("..\\a", &place_of("a")));
}

#[test]
fn the_machine_is_asked_by_place() {
    let mut m = Machine::empty();
    assert!(m.file_versions.is_empty());
    m.directories.push("C:\\App".into());
    m.files.push(FileSeen {
        path: "C:\\App\\a.exe".into(),
        sha256: "h".into(),
        size: 1,
        modified: None,
    });
    m.links.push(LinkSeen { path: "C:\\App\\a.lnk".into(), found: LinkInspection::NotALink });
    m.file_versions.push(("C:\\App\\a.exe".into(), "1.2".into()));
    assert!(m.directory_exists("c:/app/"));
    assert!(m.inspect_file("C:/App//A.EXE").is_some());
    assert!(m.inspect_file("C:\\App\\a.exe\\").is_none(), "a file is no directory");
    assert!(!matches!(m.inspect_link("C:\\App\\.\\a.lnk"), LinkInspection::Absent));
    assert_eq!(m.file_version("c:/app/a.exe"), Some("1.2"));
    assert_eq!(m.file_version("c:/app/b.exe"), None);
}

#[test]
fn a_placed_path_stays_under_its_root() {
    assert_eq!(absolute("C:\\App", "a\\b").unwrap(), "C:\\App\\a\\b");
    let err = absolute("\\\\server", "a").unwrap_err();
    assert_eq!(err.code, "path_outside_root");
    assert_eq!(
        err.message,
        "stored path \"a\" cannot be used under \\\\server: it does not stay under the install root"
    );
}
