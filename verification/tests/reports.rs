use tigersetup_engine::report::documents::{answered, log_line, Answer, Outcome, Question};
use tigersetup_engine::report::exit;
use tigersetup_engine::report::time::{
    civil_from_days, day_of, now_rfc3339, rfc3339_from_unix, unique_id,
};
use tigersetup_engine::Error;

#[test]
fn timestamps_are_rfc3339_utc() {
    assert_eq!(rfc3339_from_unix(0, 0), "1970-01-01T00:00:00.000Z");
    assert_eq!(rfc3339_from_unix(951_782_400, 5), "2000-02-29T00:00:00.005Z");
    assert_eq!(rfc3339_from_unix(1_788_722_645, 123), "2026-09-06T19:24:05.123Z");
}

#[test]
fn dates_outside_the_epoch_read_too() {
    assert_eq!(rfc3339_from_unix(-1, 999), "1969-12-31T23:59:59.999Z");
    assert_eq!(civil_from_days(-719_528), (0, 1, 1));
    assert_eq!(civil_from_days(47_540), (2100, 2, 28));
    assert_eq!(civil_from_days(47_541), (2100, 3, 1));
    assert_eq!(civil_from_days(146_097 * 63_000_000_000_000), (25_200_000_000_001_970, 1, 1));
    assert_eq!(civil_from_days(-146_097 * 63_000_000_000_000), (-25_199_999_999_998_030, 1, 1));
}

#[test]
fn the_present_is_a_stamp_of_this_century() {
    let now = now_rfc3339();
    assert_eq!(now.len(), 24);
    assert!(now.starts_with("20") && now.ends_with('Z'), "{now}");
    assert_eq!(day_of(&now).len(), 8);
    assert_eq!(day_of("2026-09-07T01:02:03.004Z"), "20260907");
}

#[test]
fn ids_are_unique_within_a_process() {
    assert_ne!(unique_id(255, 16, 1), unique_id(255, 16, 2));
    assert_eq!(unique_id(255, 16, 1), "ff-10-1");
}

#[test]
fn every_failure_has_its_exit_code() {
    for (code, expected) in [
        ("recovery_incomplete", exit::RECOVERY_INCOMPLETE),
        ("dependency_missing", exit::DEPENDENCY_MISSING),
        ("dependency_requires_elevation", exit::ELEVATION),
        ("cancelled", exit::CANCELLED),
        ("package_in_use", exit::IN_USE),
        ("platform_unsupported", exit::UNSUPPORTED_PLATFORM),
        ("metadata_invalid", exit::INVALID),
        ("something_else", exit::ROLLED_BACK),
    ] {
        assert_eq!(Error::new(code, "").exit_code(), expected, "{code}");
    }
}

#[test]
fn an_answer_is_logged_with_what_was_asked() {
    let holders = vec![];
    let event = answered(&Question::CloseApplications(&holders), Answer::Cancel);
    assert_eq!(event.code, "question_answered");
    assert_eq!(event.message, "close_applications=0 answer=cancel");
    assert_eq!(log_line("T", "c", "m"), "T [c] m");
    let outcome = Outcome::new("failed", "x", 2, "why");
    assert_eq!((outcome.outcome, outcome.code.as_str(), outcome.exit_code), ("failed", "x", 2));
    assert!(outcome.findings.is_empty() && outcome.transaction.is_none());
}
