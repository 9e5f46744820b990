use kagurarr::blacklist::{rfc3339_time, ttl_cutoff, Blacklist, BlacklistEntry, BlacklistStatus};

const T1: &str = "2024-01-01T00:00:00+00:00";
const T2: &str = "2024-03-01T00:00:00+00:00";
const CUTOFF: &str = "2024-02-01T00:00:00+00:00";

#[test]
fn status_text() {
    assert_eq!(BlacklistStatus::Failed.as_str(), "failed");
    assert_eq!(BlacklistStatus::Done.as_str(), "done");
    assert_eq!(BlacklistStatus::NoMatch.as_str(), "no_match");
}

#[test]
fn failed_attempt_is_remembered() {
    let mut b = Blacklist::new();
    assert!(!b.is_blacklisted(7, "user", "folder"));
    b.insert(7, Some("user"), Some("folder"), BlacklistStatus::Failed, Some("lidarr_rejected"), T1);
    assert!(b.is_blacklisted(7, "user", "folder"));
    assert!(!b.is_done(7));
}

#[test]
fn blacklist_is_per_album_user_and_folder() {
    let mut b = Blacklist::new();
    b.insert(7, Some("user"), Some("folder"), BlacklistStatus::Failed, None, T1);
    assert!(!b.is_blacklisted(8, "user", "folder"));
    assert!(!b.is_blacklisted(7, "other", "folder"));
    assert!(!b.is_blacklisted(7, "user", "other"));
}

#[test]
fn done_is_remembered_and_does_not_blacklist() {
    let mut b = Blacklist::new();
    b.insert(3, None, None, BlacklistStatus::Done, None, T1);
    assert!(b.is_done(3));
    assert!(!b.is_done(4));
}

#[test]
fn done_with_user_and_folder_does_not_blacklist() {
    let mut b = Blacklist::new();
    b.insert(3, Some("u"), Some("f"), BlacklistStatus::Done, None, T1);
    assert!(!b.is_blacklisted(3, "u", "f"));
}

#[test]
fn no_match_blocks_nothing() {
    let mut b = Blacklist::new();
    b.insert(3, None, None, BlacklistStatus::NoMatch, Some("no candidates above threshold"), T1);
    assert!(!b.is_done(3));
    assert!(!b.is_blacklisted(3, "", ""));
    assert_eq!(b.entries().len(), 1);
}

#[test]
fn insert_keeps_earlier_rows() {
    let mut b = Blacklist::new();
    b.insert(1, Some("u"), Some("f"), BlacklistStatus::Failed, None, T1);
    b.insert(2, None, None, BlacklistStatus::Done, None, T2);
    assert!(b.is_blacklisted(1, "u", "f"));
    assert!(b.is_done(2));
    let e = &b.entries()[1];
    assert_eq!(e.album_id, 2);
    assert_eq!(e.status, "done");
    assert_eq!(e.attempted_at, T2);
}

#[test]
fn prune_removes_only_old_failures() {
    let mut b = Blacklist::new();
    b.insert(1, Some("u"), Some("old"), BlacklistStatus::Failed, None, T1);
    b.insert(1, Some("u"), Some("new"), BlacklistStatus::Failed, None, T2);
    b.insert(2, None, None, BlacklistStatus::Done, None, T1);
    b.insert(3, None, None, BlacklistStatus::NoMatch, None, T1);
    let removed = b.prune_expired(CUTOFF);
    assert_eq!(removed, 1);
    assert!(!b.is_blacklisted(1, "u", "old"));
    assert!(b.is_blacklisted(1, "u", "new"));
    assert!(b.is_done(2));
    assert_eq!(b.entries().len(), 3);
}

#[test]
fn prune_twice_removes_nothing_more() {
    let mut b = Blacklist::new();
    b.insert(1, Some("u"), Some("old"), BlacklistStatus::Failed, None, T1);
    assert_eq!(b.prune_expired(CUTOFF), 1);
    assert_eq!(b.prune_expired(CUTOFF), 0);
}

#[test]
fn prune_at_exact_cutoff_keeps_the_row() {
    let mut b = Blacklist::new();
    b.insert(1, Some("u"), Some("f"), BlacklistStatus::Failed, None, CUTOFF);
    assert_eq!(b.prune_expired(CUTOFF), 0);
    assert!(b.is_blacklisted(1, "u", "f"));
}

#[test]
fn entry_expiry_compares_text() {
    let e = BlacklistEntry::new(1, Some("u"), Some("f"), BlacklistStatus::Failed, None, T1);
    assert!(e.is_expired(CUTOFF));
    assert!(!e.is_expired(T1));
    assert!(e.is_expired("2024-01-01T00:00:00+00:00Z"));
    let d = BlacklistEntry::new(1, None, None, BlacklistStatus::Done, None, T1);
    assert!(!d.is_expired(CUTOFF));
}

#[test]
fn from_entries_keeps_rows() {
    let rows = vec![
        BlacklistEntry::new(5, Some("a"), Some("b"), BlacklistStatus::Failed, Some("download_error"), T1),
    ];
    let b = Blacklist::from_entries(rows);
    assert!(b.is_blacklisted(5, "a", "b"));
    assert_eq!(b.entries()[0].reason.as_deref(), Some("download_error"));
}

#[test]
fn ttl_cutoff_is_the_same_time_ttl_days_earlier() {
    assert_eq!(ttl_cutoff(86_400 * 40, 0, 30).as_deref(), Some("1970-01-11T00:00:00+00:00"));
    assert_eq!(ttl_cutoff(1_709_251_200, 0, 0).as_deref(), Some("2024-03-01T00:00:00+00:00"));
    assert_eq!(ttl_cutoff(1_709_251_200, 0, 30).as_deref(), Some("2024-01-31T00:00:00+00:00"));
    assert_eq!(ttl_cutoff(0, 0, u64::MAX), None);
}

#[test]
fn prune_older_than_ttl() {
    let mut b = Blacklist::new();
    b.insert(1, Some("u"), Some("old"), BlacklistStatus::Failed, None, "2024-01-30T00:00:00+00:00");
    b.insert(1, Some("u"), Some("new"), BlacklistStatus::Failed, None, "2024-02-01T00:00:00+00:00");
    // 2024-03-01T00:00:00Z, with a 30 day time to live: cutoff 2024-01-31
    assert_eq!(b.prune_older_than(1_709_251_200, 0, 30), Some(1));
    assert!(!b.is_blacklisted(1, "u", "old"));
    assert!(b.is_blacklisted(1, "u", "new"));
    assert_eq!(b.prune_older_than(0, 0, u64::MAX), None);
    assert_eq!(b.entries().len(), 1);
}

#[test]
fn attempt_time_text() {
    assert_eq!(
        rfc3339_time(1_709_251_200, 0).as_deref(),
        Some("2024-03-01T00:00:00+00:00")
    );
    assert_eq!(
        rfc3339_time(1_709_251_200, 500_000_000).as_deref(),
        Some("2024-03-01T00:00:00.500+00:00")
    );
    assert_eq!(rfc3339_time(i64::MAX, 0), None);
    assert!(rfc3339_time(8_000_000_000_000, 999_999_999).is_some());
    assert!(rfc3339_time(-8_000_000_000_000, 0).is_some());
}
