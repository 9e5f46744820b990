use kagurarr::blacklist::{Blacklist, BlacklistStatus};
use kagurarr::lidarr::{Artist, WantedAlbum};
use kagurarr::scorer::Candidate;
use kagurarr::slskd::SlskdFile;
use kagurarr::sync::{search_query, select_albums, viable_candidates, AlbumAction, AlbumRun, TryOutcome};

const T: &str = "2024-01-01T00:00:00+00:00";

fn album(id: i64) -> WantedAlbum {
    WantedAlbum { id, title: format!("Album {id}"), artist: Artist { artist_name: "Artist".into() } }
}

fn cand(user: &str, folder: &str) -> Candidate {
    Candidate {
        username: user.into(),
        remote_folder: folder.into(),
        files: vec![SlskdFile { filename: format!("{folder}\\01.flac"), size: 1, extension: Some("flac".into()) }],
        score_bits: 0.9f64.to_bits(),
    }
}

#[test]
fn query_is_artist_then_album() {
    assert_eq!(search_query("Kirinji", "kirin"), "Kirinji kirin");
}

#[test]
fn select_albums_skips_done_and_truncates() {
    let mut b = Blacklist::new();
    b.insert(2, None, None, BlacklistStatus::Done, None, T);
    let wanted = vec![album(1), album(2), album(3), album(4)];
    let ids: Vec<i64> = select_albums(wanted, &b, 2).iter().map(|a| a.id).collect();
    assert_eq!(ids, vec![1, 3]);
}

#[test]
fn select_albums_zero_max() {
    let b = Blacklist::new();
    assert!(select_albums(vec![album(1)], &b, 0).is_empty());
}

#[test]
fn viable_candidates_drop_blacklisted_combinations() {
    let mut b = Blacklist::new();
    b.insert(1, Some("bad"), Some("F"), BlacklistStatus::Failed, None, T);
    let ranked = vec![cand("bad", "F"), cand("bad", "G"), cand("good", "F")];
    let v = viable_candidates(1, ranked, &b);
    let pairs: Vec<(String, String)> = v.iter().map(|c| (c.username.clone(), c.remote_folder.clone())).collect();
    assert_eq!(pairs, vec![("bad".into(), "G".into()), ("good".into(), "F".into())]);
}

#[test]
fn no_viable_candidate_records_no_match() {
    let (run, action) = AlbumRun::start(9, vec![]);
    assert!(run.finished());
    match action {
        AlbumAction::Record { record, next } => {
            assert_eq!(next, None);
            assert_eq!(record.album_id, 9);
            assert_eq!(record.status, BlacklistStatus::NoMatch);
            assert_eq!(record.username, None);
            assert_eq!(record.reason.as_deref(), Some("no candidates above threshold"));
        }
        _ => panic!("expected a record"),
    }
}

#[test]
fn accepted_first_candidate_records_done_and_stops() {
    let (mut run, action) = AlbumRun::start(9, vec![cand("a", "F"), cand("b", "G")]);
    assert!(matches!(action, AlbumAction::Try(0)));
    assert_eq!(run.candidate(0).username, "a");
    match run.on_outcome(TryOutcome::Accepted) {
        AlbumAction::Record { record, next } => {
            assert_eq!(next, None);
            assert_eq!(record.status, BlacklistStatus::Done);
            assert_eq!(record.username, None);
            assert_eq!(record.folder, None);
            assert_eq!(record.reason, None);
        }
        _ => panic!("expected a record"),
    }
    assert!(run.finished());
}

#[test]
fn failures_blacklist_each_candidate_and_move_on() {
    let (mut run, _) = AlbumRun::start(9, vec![cand("a", "F"), cand("b", "G")]);
    match run.on_outcome(TryOutcome::Rejected) {
        AlbumAction::Record { record, next } => {
            assert_eq!(next, Some(1));
            assert_eq!(record.status, BlacklistStatus::Failed);
            assert_eq!(record.username.as_deref(), Some("a"));
            assert_eq!(record.folder.as_deref(), Some("F"));
            assert_eq!(record.reason.as_deref(), Some("lidarr_rejected"));
        }
        _ => panic!("expected a record"),
    }
    assert!(!run.finished());
    match run.on_outcome(TryOutcome::Failed) {
        AlbumAction::Record { record, next } => {
            assert_eq!(next, None);
            assert_eq!(record.username.as_deref(), Some("b"));
            assert_eq!(record.reason.as_deref(), Some("download_error"));
        }
        _ => panic!("expected a record"),
    }
    assert!(run.finished());
}

#[test]
fn a_failed_candidate_is_not_retried_next_cycle() {
    let (mut run, _) = AlbumRun::start(4, vec![cand("a", "F")]);
    let record = match run.on_outcome(TryOutcome::Rejected) {
        AlbumAction::Record { record, .. } => record,
        _ => panic!("expected a record"),
    };
    let b = Blacklist::from_entries(vec![record.to_entry(T)]);
    let v = viable_candidates(4, vec![cand("a", "F"), cand("c", "H")], &b);
    assert_eq!(v.len(), 1);
    assert_eq!(v[0].username, "c");
    // the same folder stays viable for another album
    assert_eq!(viable_candidates(5, vec![cand("a", "F")], &b).len(), 1);
}

#[test]
fn a_done_album_is_not_selected_next_cycle() {
    let (mut run, _) = AlbumRun::start(4, vec![cand("a", "F")]);
    let mut b = Blacklist::new();
    if let AlbumAction::Record { record, .. } = run.on_outcome(TryOutcome::Accepted) {
        let e = record.to_entry(T);
        assert_eq!(e.status, "done");
        b = Blacklist::from_entries(vec![e]);
    }
    let ids: Vec<i64> = select_albums(vec![album(4), album(5)], &b, 10).iter().map(|a| a.id).collect();
    assert_eq!(ids, vec![5]);
}

#[test]
fn record_to_entry_carries_all_fields() {
    let (mut run, _) = AlbumRun::start(4, vec![cand("u", "F")]);
    if let AlbumAction::Record { record, .. } = run.on_outcome(TryOutcome::Failed) {
        let e = record.to_entry(T);
        assert_eq!(e.album_id, 4);
        assert_eq!(e.username.as_deref(), Some("u"));
        assert_eq!(e.folder.as_deref(), Some("F"));
        assert_eq!(e.status, "failed");
        assert_eq!(e.reason.as_deref(), Some("download_error"));
        assert_eq!(e.attempted_at, T);
    } else {
        panic!("expected a record");
    }
}

#[test]
fn all_failed_candidates_are_exhausted() {
    let cands = || vec![cand("a", "F"), cand("b", "G"), cand("c", "H")];
    let (mut run, first) = AlbumRun::start(2, cands());
    assert!(matches!(first, AlbumAction::Try(0)));
    let mut rows = Vec::new();
    let mut tried = 0;
    loop {
        tried += 1;
        match run.on_outcome(TryOutcome::Failed) {
            AlbumAction::Record { record, next } => {
                rows.push(record.to_entry(T));
                if next.is_none() {
                    break;
                }
            }
            _ => panic!("expected a record"),
        }
    }
    assert_eq!(tried, 3);
    assert!(run.finished());
    let b = Blacklist::from_entries(rows);
    assert!(viable_candidates(2, cands(), &b).is_empty());
}
