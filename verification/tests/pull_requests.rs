use tide::pr::{make_link, parse_pr_link, rollup_checks, rollup_status, Check, PrStatus};
use tide::theme::MUTED;

fn check(status: Option<&str>, conclusion: Option<&str>, state: Option<&str>) -> Check {
    let own = |o: Option<&str>| o.map(|s| s.to_string());
    Check { status: own(status), conclusion: own(conclusion), state: own(state) }
}

#[test]
fn a_link_is_read_from_json() {
    let json = br#"{"number":12,"url":"https://github.com/o/r/pull/12","baseRefName":"next","headRefName":"feat",
        "statusCheckRollup":[{"status":"COMPLETED","conclusion":"success"},{"state":"SUCCESS"}]}"#;
    let l = parse_pr_link(json).unwrap();
    assert_eq!(l.number, 12);
    assert_eq!(l.url, "https://github.com/o/r/pull/12");
    assert_eq!(l.base, "next");
    assert_eq!(l.head, "feat");
    assert_eq!(l.status, PrStatus::Passing);
}

#[test]
fn a_link_needs_a_number_and_an_address() {
    assert!(parse_pr_link(b"{\"number\":1}").is_none());
    assert!(parse_pr_link(b"{\"url\":\"u\"}").is_none());
    assert!(parse_pr_link(b"{\"number\":\"1\",\"url\":\"u\"}").is_none());
    assert!(parse_pr_link(b"{\"number\":1,\"url\":2}").is_none());
    assert!(parse_pr_link(b"not json").is_none());
    let l = parse_pr_link(b"{\"number\":1,\"url\":\"u\"}").unwrap();
    assert_eq!((l.base.as_str(), l.head.as_str(), l.status), ("", "", PrStatus::NoChecks));
}

#[test]
fn running_checks_are_pending() {
    let json = br#"{"number":1,"url":"u","statusCheckRollup":[{"status":"IN_PROGRESS","conclusion":"FAILURE"},{"state":"SUCCESS"}]}"#;
    assert_eq!(parse_pr_link(json).unwrap().status, PrStatus::Pending);
    let empty = br#"{"number":1,"url":"u","statusCheckRollup":[]}"#;
    assert_eq!(parse_pr_link(empty).unwrap().status, PrStatus::NoChecks);
    let odd = br#"{"number":1,"url":"u","statusCheckRollup":[{}]}"#;
    assert_eq!(parse_pr_link(odd).unwrap().status, PrStatus::Pending);
}

#[test]
fn one_failing_check_fails_all() {
    let v = vec![
        check(Some("QUEUED"), None, None),
        check(Some("COMPLETED"), Some("timed_out"), None),
        check(Some("COMPLETED"), Some("SUCCESS"), None),
    ];
    assert_eq!(rollup_checks(&v), PrStatus::Failing);
}

#[test]
fn the_order_of_checks_is_of_no_matter() {
    let mk = || {
        vec![
            check(Some("COMPLETED"), Some("NEUTRAL"), None),
            check(None, None, Some("expected")),
            check(Some("COMPLETED"), Some("SKIPPED"), None),
        ]
    };
    let mut back = mk();
    back.reverse();
    assert_eq!(rollup_checks(&mk()), PrStatus::Pending);
    assert_eq!(rollup_checks(&back), PrStatus::Pending);
}

#[test]
fn every_word_has_its_outcome() {
    for (w, want) in [
        ("SUCCESS", PrStatus::Passing),
        ("neutral", PrStatus::Passing),
        ("Skipped", PrStatus::Passing),
        ("", PrStatus::Pending),
        ("PENDING", PrStatus::Pending),
        ("EXPECTED", PrStatus::Pending),
        ("in_progress", PrStatus::Pending),
        ("QUEUED", PrStatus::Pending),
        ("WAITING", PrStatus::Pending),
        ("FAILURE", PrStatus::Failing),
        ("CANCELLED", PrStatus::Failing),
        ("\u{df}", PrStatus::Failing),
    ] {
        assert_eq!(rollup_checks(&vec![check(None, None, Some(w))]), want, "{}", w);
    }
    assert_eq!(rollup_checks(&Vec::new()), PrStatus::NoChecks);
}

#[test]
fn statuses_have_colours_and_words() {
    assert_eq!(PrStatus::Passing.color(), 0x6aaf6a);
    assert_eq!(PrStatus::Pending.label(), ("checks running", 0xd9a23b));
    assert_eq!(PrStatus::Failing.label(), ("checks failing", 0xe04141));
    assert_eq!(PrStatus::NoChecks.label(), ("no checks", MUTED));
    assert!(make_link(None, Some("u".to_string()), &Vec::new(), None, None).is_none());
}

#[test]
fn checks_are_rolled_up_from_json() {
    let v: serde_json::Value =
        serde_json::from_str(r#"{"statusCheckRollup":[{"status":"COMPLETED","conclusion":"failure"},{"state":7}]}"#).unwrap();
    assert_eq!(rollup_status(&v), PrStatus::Failing);
    let odd: serde_json::Value = serde_json::from_str(r#"{"statusCheckRollup":{"status":"COMPLETED"}}"#).unwrap();
    assert_eq!(rollup_status(&odd), PrStatus::NoChecks);
}
