use apostle_client::error::ErrorKind;
use apostle_client::ledger::{IdentityRow, UsageRow};
use apostle_client::{Ledger, UsageEvent};

const NOW: &str = "2025-01-02 03:04:05";

fn empty_ledger() -> Ledger {
    Ledger::open(vec![], vec![]).unwrap()
}

fn event(identity: &str, recipient: &str, subject: &str, success: bool) -> UsageEvent {
    UsageEvent::new(
        identity.to_string(),
        recipient.to_string(),
        subject.to_string(),
        success,
    )
}

fn row(identity: &str, secret: [u8; 4], created_at: &str) -> IdentityRow {
    IdentityRow {
        identity: identity.to_string(),
        secret,
        created_at: created_at.to_string(),
    }
}

#[test]
fn issues_identity_and_reports_usage() {
    let mut ledger = empty_ledger();

    let secret = ledger.issue_identity("dwhitfield@artisanhosting.net", NOW);
    assert_eq!(secret.len(), 4);

    ledger.record_usage(
        &UsageEvent {
            identity: "dwhitfield@artisanhosting.net".to_owned(),
            recipient: "someone@example.com".to_owned(),
            subject: "Hello".to_owned(),
            success: true,
        },
        NOW,
    );
    ledger.record_usage(
        &UsageEvent {
            identity: "dwhitfield@artisanhosting.net".to_owned(),
            recipient: "spam-target@example.com".to_owned(),
            subject: "Buy now".to_owned(),
            success: false,
        },
        NOW,
    );

    let report = ledger.report("dwhitfield@artisanhosting.net");
    assert_eq!(report.len(), 2);
    assert_eq!(report[0].recipient, "someone@example.com");
    assert_eq!(report[0].subject, "Hello");
    assert!(report[0].success);
    assert_eq!(report[1].recipient, "spam-target@example.com");
    assert!(!report[1].success);
    assert_eq!(report[0].occurred_at, NOW);
}

#[test]
fn identity_for_secret_round_trips_and_rejects_unknown() {
    let mut ledger = empty_ledger();

    let secret = ledger.issue_identity("dwhitfield@artisanhosting.net", NOW);
    let resolved = ledger.identity_for_secret(secret);
    assert_eq!(resolved.as_deref(), Some("dwhitfield@artisanhosting.net"));

    let unissued = ledger.identity_for_secret([9, 9, 9, 9]);
    assert_eq!(unissued, None);
}

#[test]
fn list_identities_lists_alphabetically() {
    let mut ledger = empty_ledger();

    ledger.issue_identity("zed@example.com", NOW);
    ledger.issue_identity("anna@example.com", NOW);

    let identities = ledger.list_identities();
    let names: Vec<&str> = identities.iter().map(|i| i.identity.as_str()).collect();
    assert_eq!(names, vec!["anna@example.com", "zed@example.com"]);
    assert!(identities.iter().all(|i| !i.created_at.is_empty()));
}

#[test]
fn revoke_identity_removes_it_and_invalidates_its_secret() {
    let mut ledger = empty_ledger();

    let secret = ledger.issue_identity("someone@example.com", NOW);
    assert!(ledger.revoke_identity("someone@example.com"));

    assert_eq!(ledger.identity_for_secret(secret), None);
    assert!(!ledger
        .list_identities()
        .iter()
        .any(|i| i.identity == "someone@example.com"));

    // Revoking again (or an identity that never existed) reports "nothing found"
    // rather than erroring.
    assert!(!ledger.revoke_identity("someone@example.com"));
}

#[test]
fn issuing_twice_rotates_the_secret() {
    let mut ledger = empty_ledger();
    let first = ledger.issue_identity("someone@example.com", NOW);
    let second = ledger.issue_identity("someone@example.com", NOW);
    // Astronomically unlikely to collide.
    assert_ne!(first, second);
    assert_eq!(ledger.identity_for_secret(first), None);
    assert_eq!(
        ledger.identity_for_secret(second).as_deref(),
        Some("someone@example.com")
    );
}

#[test]
fn rotation_keeps_the_time_of_creation() {
    let mut ledger = empty_ledger();
    ledger.store_secret("a", [1, 2, 3, 4], "first");
    ledger.store_secret("b", [4, 3, 2, 1], "second");
    ledger.store_secret("a", [5, 6, 7, 8], "third");
    let identities = ledger.list_identities();
    assert_eq!(identities.len(), 2);
    assert_eq!(identities[0].identity, "a");
    assert_eq!(identities[0].created_at, "first");
    assert_eq!(identities[1].created_at, "second");
    assert_eq!(ledger.identity_for_secret([1, 2, 3, 4]), None);
    assert_eq!(ledger.identity_for_secret([5, 6, 7, 8]).as_deref(), Some("a"));
    assert_eq!(ledger.identity_for_secret([4, 3, 2, 1]).as_deref(), Some("b"));
}

#[test]
fn a_secret_that_two_hold_stands_for_the_older() {
    let mut ledger = empty_ledger();
    ledger.store_secret("z", [1, 1, 1, 1], NOW);
    ledger.store_secret("a", [1, 1, 1, 1], NOW);
    assert_eq!(ledger.identity_for_secret([1, 1, 1, 1]).as_deref(), Some("z"));
    assert!(ledger.revoke_identity("z"));
    assert_eq!(ledger.identity_for_secret([1, 1, 1, 1]).as_deref(), Some("a"));
}

#[test]
fn secrets_that_differ_in_one_byte_are_different() {
    for i in 0..4 {
        let mut secret = [7u8; 4];
        let mut ledger = empty_ledger();
        ledger.store_secret("a", secret, NOW);
        secret[i] = 8;
        assert_eq!(ledger.identity_for_secret(secret), None);
    }
}

#[test]
fn revoking_touches_one_identity_and_no_history() {
    let mut ledger = empty_ledger();
    ledger.store_secret("a", [1; 4], "t1");
    ledger.store_secret("b", [2; 4], "t2");
    ledger.store_secret("c", [3; 4], "t3");
    ledger.record_usage(&event("b", "x", "s", true), "t4");
    assert!(ledger.revoke_identity("b"));
    let names: Vec<String> = ledger
        .list_identities()
        .into_iter()
        .map(|i| i.identity)
        .collect();
    assert_eq!(names, ["a", "c"]);
    assert_eq!(ledger.identity_for_secret([1; 4]).as_deref(), Some("a"));
    assert_eq!(ledger.identity_for_secret([2; 4]), None);
    assert_eq!(ledger.identity_for_secret([3; 4]).as_deref(), Some("c"));
    assert_eq!(ledger.report("b").len(), 1);
}

#[test]
fn names_are_listed_in_the_order_of_their_bytes() {
    let names = ["b", "a", "B", "é", "z", "", "aa", "漢", "😀", "\u{ffff}", "a b"];
    let mut ledger = empty_ledger();
    for (i, name) in names.iter().enumerate() {
        ledger.store_secret(name, [i as u8; 4], NOW);
    }
    let mut sorted: Vec<String> = names.iter().map(|n| n.to_string()).collect();
    sorted.sort();
    let listed: Vec<String> = ledger
        .list_identities()
        .into_iter()
        .map(|i| i.identity)
        .collect();
    assert_eq!(listed, sorted);
}

#[test]
fn a_report_is_oldest_first_and_ties_keep_their_order() {
    let mut ledger = empty_ledger();
    ledger.record_usage(&event("a", "3", "s", true), "2025-01-03");
    ledger.record_usage(&event("a", "1", "s", true), "2025-01-01");
    ledger.record_usage(&event("b", "other", "s", true), "2025-01-01");
    ledger.record_usage(&event("a", "4", "s", false), "2025-01-03");
    ledger.record_usage(&event("a", "2", "s", true), "2025-01-02");
    let recipients: Vec<String> = ledger
        .report("a")
        .into_iter()
        .map(|r| r.recipient)
        .collect();
    assert_eq!(recipients, ["1", "2", "3", "4"]);
    assert_eq!(ledger.report("b").len(), 1);
    assert!(ledger.report("c").is_empty());
}

#[test]
fn a_new_use_comes_last_in_its_report_and_in_no_other() {
    let mut ledger = empty_ledger();
    ledger.record_usage(&event("a", "1", "s", true), "t1");
    ledger.record_usage(&event("b", "2", "s", true), "t2");
    ledger.record_usage(&event("a", "3", "late", false), "t2");
    let report = ledger.report("a");
    assert_eq!(report.len(), 2);
    assert_eq!(report[1].recipient, "3");
    assert_eq!(report[1].subject, "late");
    assert_eq!(report[1].occurred_at, "t2");
    assert!(!report[1].success);
    assert_eq!(ledger.report("b").len(), 1);
}

#[test]
fn a_ledger_opens_with_the_rows_it_is_given() {
    let ledger = Ledger::open(
        vec![row("b", [1, 2, 3, 4], "t1"), row("a", [5, 6, 7, 8], "t2")],
        vec![UsageRow {
            identity: "gone".to_string(),
            recipient: "r".to_string(),
            subject: "s".to_string(),
            success: true,
            occurred_at: "t0".to_string(),
        }],
    )
    .unwrap();
    let identities = ledger.list_identities();
    assert_eq!(identities[0].identity, "a");
    assert_eq!(identities[0].created_at, "t2");
    assert_eq!(identities[1].identity, "b");
    assert_eq!(ledger.identity_for_secret([1, 2, 3, 4]).as_deref(), Some("b"));
    let report = ledger.report("gone");
    assert_eq!(report.len(), 1);
    assert_eq!(report[0].occurred_at, "t0");
}

#[test]
fn an_identity_with_two_rows_is_refused() {
    let rows = vec![row("a", [1; 4], "t"), row("b", [2; 4], "t"), row("a", [3; 4], "t")];
    match Ledger::open(rows, vec![]) {
        Ok(_) => panic!("two rows of one identity"),
        Err(err) => {
            assert_eq!(err.kind, ErrorKind::ConfigReading);
            assert_eq!(err.message, "the ledger holds an identity twice");
        }
    }
}

#[test]
fn a_ledger_gives_back_its_rows() {
    let mut ledger = Ledger::open(vec![row("b", [1; 4], "t1")], vec![]).unwrap();
    ledger.store_secret("a", [2; 4], "t2");
    ledger.store_secret("b", [3; 4], "t3");
    ledger.record_usage(&event("b", "r", "s", false), "t4");
    let (identities, usage) = ledger.into_rows();
    assert_eq!(identities.len(), 2);
    assert_eq!(identities[0].identity, "b");
    assert_eq!(identities[0].secret, [3; 4]);
    assert_eq!(identities[0].created_at, "t1");
    assert_eq!(identities[1].identity, "a");
    assert_eq!(identities[1].created_at, "t2");
    assert_eq!(usage.len(), 1);
    assert_eq!(usage[0].identity, "b");
    assert_eq!(usage[0].occurred_at, "t4");
    assert!(!usage[0].success);
}
