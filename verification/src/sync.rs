//! The decisions of a sync cycle: which wanted albums to handle, which candidates
//! are worth trying, and, per album, the state machine that tries candidates best
//! first and says what to record in the blacklist after each outcome.

use vstd::prelude::*;
use crate::blacklist::{
    blacklisted_in, done_in, entry_records, law_no_match_blocks_nothing, status_text, Blacklist,
    BlacklistEntry, BlacklistStatus,
};
use crate::lidarr::WantedAlbum;
use crate::scorer::Candidate;
use crate::text::opt_view;

verus! {

/// The search text for an album: "{artist} {album}".
pub fn search_query(artist: &str, album: &str) -> (r: String)
    ensures
        r@ == artist@ + " "@ + album@,
{
    let mut s = String::from_str(artist);
    s.append(" ");
    s.append(album);
    s
}

/// Albums that the blacklist does not mark done.
pub open spec fn not_done(rows: Seq<BlacklistEntry>) -> spec_fn(WantedAlbum) -> bool {
    |a: WantedAlbum| !done_in(rows, a.id)
}

/// The albums a cycle handles: the wanted albums not marked done, in order, at
/// most `max` of them.
pub open spec fn albums_to_process(
    wanted: Seq<WantedAlbum>,
    rows: Seq<BlacklistEntry>,
    max: usize,
) -> Seq<WantedAlbum> {
    let open = wanted.filter(not_done(rows));
    if open.len() > max {
        open.take(max as int)
    } else {
        open
    }
}

/// The wanted albums to handle this cycle (see `albums_to_process`).
pub fn select_albums(wanted: Vec<WantedAlbum>, blacklist: &Blacklist, max: usize) -> (r: Vec<
    WantedAlbum,
>)
    ensures
        r@ == albums_to_process(wanted@, blacklist@, max),
{
    let ghost orig = wanted@;
    let mut rest = wanted;
    let mut out: Vec<WantedAlbum> = Vec::new();
    let ghost mut i: int = 0;
    while rest.len() > 0
        invariant
            0 <= i <= orig.len(),
            rest@ == orig.skip(i),
            out@ == orig.take(i).filter(not_done(blacklist@)),
        decreases rest.len(),
    {
        let a = rest.remove(0);
        proof {
            assert(a == orig[i]);
            assert(orig.take(i + 1).drop_last() =~= orig.take(i));
            reveal(Seq::filter);
        }
        if !blacklist.is_done(a.id) {
            out.push(a);
        }
        proof {
            i = i + 1;
        }
    }
    assert(orig.take(i) =~= orig);
    out.truncate(max);
    out
}

/// Candidates whose (album, user, folder) combination is not blacklisted.
pub open spec fn not_blacklisted(rows: Seq<BlacklistEntry>, album_id: i64) -> spec_fn(Candidate) -> bool {
    |c: Candidate| !blacklisted_in(rows, album_id, c.username@, c.remote_folder@)
}

/// The ranked candidates worth trying for an album: those not blacklisted, in
/// ranked order.
pub open spec fn viable(ranked: Seq<Candidate>, rows: Seq<BlacklistEntry>, album_id: i64) -> Seq<
    Candidate,
> {
    ranked.filter(not_blacklisted(rows, album_id))
}

/// Drops the candidates already known to be bad for this album.
pub fn viable_candidates(album_id: i64, ranked: Vec<Candidate>, blacklist: &Blacklist) -> (r: Vec<
    Candidate,
>)
    ensures
        r@ == viable(ranked@, blacklist@, album_id),
{
    let ghost orig = ranked@;
    let mut rest = ranked;
    let mut out: Vec<Candidate> = Vec::new();
    let ghost mut i: int = 0;
    while rest.len() > 0
        invariant
            0 <= i <= orig.len(),
            rest@ == orig.skip(i),
            out@ == viable(orig.take(i), blacklist@, album_id),
        decreases rest.len(),
    {
        let c = rest.remove(0);
        proof {
            assert(c == orig[i]);
            assert(orig.take(i + 1).drop_last() =~= orig.take(i));
            reveal(Seq::filter);
        }
        if !blacklist.is_blacklisted(album_id, c.username.as_str(), c.remote_folder.as_str()) {
            out.push(c);
        }
        proof {
            i = i + 1;
        }
    }
    assert(orig.take(i) =~= orig);
    out
}

// ---------------------------------------------------------------------------
// Per-album state machine
// ---------------------------------------------------------------------------

/// What came of trying one candidate.
#[derive(Debug, Clone, Copy, PartialEq, Eq, Structural)]
pub enum TryOutcome {
    /// Lidarr imported the download.
    Accepted,
    /// Lidarr rejected the download.
    Rejected,
    /// The download or the import could not be carried out.
    Failed,
}

/// A blacklist row to write, without its time.
#[derive(Debug)]
pub struct Record {
    pub album_id: i64,
    pub username: Option<String>,
    pub folder: Option<String>,
    pub status: BlacklistStatus,
    pub reason: Option<String>,
}

/// What to do next for an album.
#[derive(Debug)]
pub enum AlbumAction {
    /// Try the candidate at this position of the viable list.
    Try(usize),
    /// Write the record; then try the candidate at `next`, or stop when there is none.
    Record { record: Record, next: Option<usize> },
}

/// The record written when no candidate is worth trying.
pub open spec fn is_no_match_record(r: Record, album_id: i64) -> bool {
    &&& r.album_id == album_id
    &&& r.username is None
    &&& r.folder is None
    &&& r.status == BlacklistStatus::NoMatch
    &&& opt_view(r.reason) == Some("no candidates above threshold"@)
}

/// The record written when a candidate was imported.
pub open spec fn is_done_record(r: Record, album_id: i64) -> bool {
    &&& r.album_id == album_id
    &&& r.username is None
    &&& r.folder is None
    &&& r.status == BlacklistStatus::Done
    &&& r.reason is None
}

/// The reason recorded for a candidate that did not work.
pub open spec fn failure_reason(outcome: TryOutcome) -> Seq<char> {
    if outcome == TryOutcome::Rejected {
        "lidarr_rejected"@
    } else {
        "download_error"@
    }
}

/// The record written when candidate `c` did not work.
pub open spec fn is_failure_record(r: Record, album_id: i64, c: Candidate, outcome: TryOutcome) -> bool {
    &&& r.album_id == album_id
    &&& opt_view(r.username) == Some(c.username@)
    &&& opt_view(r.folder) == Some(c.remote_folder@)
    &&& r.status == BlacklistStatus::Failed
    &&& opt_view(r.reason) == Some(failure_reason(outcome))
}

/// One album's progress through its viable candidates.
#[derive(Debug)]
pub struct AlbumRun {
    album_id: i64,
    candidates: Vec<Candidate>,
    current: usize,
    finished: bool,
}

impl AlbumRun {
    /// The album being handled.
    pub closed spec fn album(&self) -> i64 {
        self.album_id
    }

    /// The viable candidates, best first.
    pub closed spec fn candidate_list(&self) -> Seq<Candidate> {
        self.candidates@
    }

    /// The position of the candidate being tried.
    pub closed spec fn position(&self) -> nat {
        self.current as nat
    }

    /// Whether nothing more is to be done for the album.
    pub closed spec fn is_over(&self) -> bool {
        self.finished
    }

    /// The well-formedness of a run: while it is not over, a candidate is being tried.
    pub closed spec fn wf(&self) -> bool {
        !self.finished ==> self.current < self.candidates@.len()
    }

    /// Starts on an album's viable candidates: the first is tried, or, when there
    /// is none, a "no match" record is written and the album is over.
    pub fn start(album_id: i64, viable: Vec<Candidate>) -> (res: (AlbumRun, AlbumAction))
        ensures
            res.0.wf(),
            res.0.album() == album_id,
            res.0.candidate_list() == viable@,
            viable@.len() == 0 ==> res.0.is_over() && (res.1 matches AlbumAction::Record {
                record,
                next,
            } && is_no_match_record(record, album_id) && next is None),
            viable@.len() > 0 ==> !res.0.is_over() && res.0.position() == 0 && res.1
                == AlbumAction::Try(0),
    {
        if viable.len() == 0 {
            let record = Record {
                album_id,
                username: None,
                folder: None,
                status: BlacklistStatus::NoMatch,
                reason: Some(String::from_str("no candidates above threshold")),
            };
            (
                AlbumRun { album_id, candidates: viable, current: 0, finished: true },
                AlbumAction::Record { record, next: None },
            )
        } else {
            (
                AlbumRun { album_id, candidates: viable, current: 0, finished: false },
                AlbumAction::Try(0),
            )
        }
    }

    /// Whether nothing more is to be done for the album.
    pub fn finished(&self) -> (r: bool)
        ensures
            r == self.is_over(),
    {
        self.finished
    }

    /// The candidate at a position of the viable list.
    pub fn candidate(&self, i: usize) -> (c: &Candidate)
        requires
            i < self.candidate_list().len(),
        ensures
            *c == self.candidate_list()[i as int],
    {
        &self.candidates[i]
    }

    /// Takes the outcome of trying the current candidate. An import is recorded as
    /// done and ends the album; any other outcome blacklists the candidate's user
    /// and folder for this album and moves on to the next candidate, if any.
    pub fn on_outcome(&mut self, outcome: TryOutcome) -> (action: AlbumAction)
        requires
            old(self).wf(),
            !old(self).is_over(),
        ensures
            final(self).wf(),
            final(self).album() == old(self).album(),
            final(self).candidate_list() == old(self).candidate_list(),
            outcome == TryOutcome::Accepted ==> final(self).is_over() && (action matches AlbumAction::Record {
                record,
                next,
            } && is_done_record(record, old(self).album()) && next is None),
            outcome != TryOutcome::Accepted ==> (action matches AlbumAction::Record { record, next }
                && is_failure_record(
                record,
                old(self).album(),
                old(self).candidate_list()[old(self).position() as int],
                outcome,
            ) && (if old(self).position() + 1 < old(self).candidate_list().len() {
                next == Some((old(self).position() + 1) as usize) && !final(self).is_over()
                    && final(self).position() == old(self).position() + 1
            } else {
                next is None && final(self).is_over()
            })),
    {
        if outcome == TryOutcome::Accepted {
            self.finished = true;
            let record = Record {
                album_id: self.album_id,
                username: None,
                folder: None,
                status: BlacklistStatus::Done,
                reason: None,
            };
            return AlbumAction::Record { record, next: None };
        }
        let c = &self.candidates[self.current];
        let reason = if outcome == TryOutcome::Rejected {
            "lidarr_rejected"
        } else {
            "download_error"
        };
        let record = Record {
            album_id: self.album_id,
            username: Some(c.username.clone()),
            folder: Some(c.remote_folder.clone()),
            status: BlacklistStatus::Failed,
            reason: Some(String::from_str(reason)),
        };
        if self.current < self.candidates.len() - 1 {
            self.current = self.current + 1;
            AlbumAction::Record { record, next: Some(self.current) }
        } else {
            self.finished = true;
            AlbumAction::Record { record, next: None }
        }
    }
}

impl Record {
    /// The blacklist row for this record, made at the given time.
    pub fn to_entry(&self, attempted_at: &str) -> (e: BlacklistEntry)
        ensures
            entry_records(
                e,
                self.album_id,
                opt_view(self.username),
                opt_view(self.folder),
                self.status,
                opt_view(self.reason),
                attempted_at@,
            ),
    {
        let username = match &self.username {
            Some(u) => Some(u.as_str()),
            None => None,
        };
        let folder = match &self.folder {
            Some(f) => Some(f.as_str()),
            None => None,
        };
        let reason = match &self.reason {
            Some(r) => Some(r.as_str()),
            None => None,
        };
        BlacklistEntry::new(self.album_id, username, folder, self.status, reason, attempted_at)
    }
}

// ---------------------------------------------------------------------------
// Laws
// ---------------------------------------------------------------------------

/// Once the failure of a candidate is written to the blacklist, that candidate's
/// user and folder are never among the album's viable candidates again, whatever
/// the next search returns (until the failure is pruned).
pub proof fn law_failed_candidate_is_not_retried(
    rows: Seq<BlacklistEntry>,
    album_id: i64,
    c: Candidate,
    outcome: TryOutcome,
    record: Record,
    e: BlacklistEntry,
    attempted_at: Seq<char>,
    ranked: Seq<Candidate>,
)
    requires
        is_failure_record(record, album_id, c, outcome),
        entry_records(
            e,
            record.album_id,
            opt_view(record.username),
            opt_view(record.folder),
            record.status,
            opt_view(record.reason),
            attempted_at,
        ),
    ensures
        blacklisted_in(rows.push(e), album_id, c.username@, c.remote_folder@),
        forall|j: int|
            0 <= j < viable(ranked, rows.push(e), album_id).len() ==> !(
            #[trigger] viable(ranked, rows.push(e), album_id)[j].username@ == c.username@
                && viable(ranked, rows.push(e), album_id)[j].remote_folder@ == c.remote_folder@),
{
    broadcast use vstd::seq_lib::group_filter_ensures;

    let rows2 = rows.push(e);
    assert(rows2[rows.len() as int] == e);
    assert(blacklisted_in(rows2, album_id, c.username@, c.remote_folder@));
    let v = viable(ranked, rows2, album_id);
    assert forall|j: int| 0 <= j < v.len() implies !(#[trigger] v[j].username@ == c.username@
        && v[j].remote_folder@ == c.remote_folder@) by {
        ranked.lemma_filter_pred(not_blacklisted(rows2, album_id), j);
    }
}

/// Once an import is recorded as done, the album is never handled again.
pub proof fn law_done_album_is_not_handled_again(
    rows: Seq<BlacklistEntry>,
    album_id: i64,
    record: Record,
    e: BlacklistEntry,
    attempted_at: Seq<char>,
    wanted: Seq<WantedAlbum>,
    max: usize,
)
    requires
        is_done_record(record, album_id),
        entry_records(
            e,
            record.album_id,
            opt_view(record.username),
            opt_view(record.folder),
            record.status,
            opt_view(record.reason),
            attempted_at,
        ),
    ensures
        forall|j: int|
            0 <= j < albums_to_process(wanted, rows.push(e), max).len() ==> (#[trigger] albums_to_process(
                wanted,
                rows.push(e),
                max,
            )[j]).id != album_id,
{
    broadcast use vstd::seq_lib::group_filter_ensures;

    let rows2 = rows.push(e);
    assert(rows2[rows.len() as int] == e);
    assert(done_in(rows2, album_id));
    let open = wanted.filter(not_done(rows2));
    let r = albums_to_process(wanted, rows2, max);
    assert forall|j: int| 0 <= j < r.len() implies (#[trigger] r[j]).id != album_id by {
        assert(r[j] == open[j]);
        wanted.lemma_filter_pred(not_done(rows2), j);
    }
}

/// The blacklist is per album: recording an attempt at one album changes neither
/// which candidates are viable for another album nor whether another album is done.
pub proof fn law_blacklist_is_per_album(
    rows: Seq<BlacklistEntry>,
    e: BlacklistEntry,
    other_album: i64,
    ranked: Seq<Candidate>,
)
    requires
        e.album_id != other_album,
    ensures
        viable(ranked, rows.push(e), other_album) == viable(ranked, rows, other_album),
        done_in(rows.push(e), other_album) == done_in(rows, other_album),
{
    let rows2 = rows.push(e);
    assert forall|u: Seq<char>, f: Seq<char>|
        blacklisted_in(rows2, other_album, u, f) == blacklisted_in(rows, other_album, u, f) by {
        if blacklisted_in(rows2, other_album, u, f) {
            let i = choose|i: int|
                0 <= i < rows2.len() && crate::blacklist::failed_for(#[trigger] rows2[i], other_album, u, f);
            assert(i < rows.len());
            assert(rows[i] == rows2[i]);
        }
        if blacklisted_in(rows, other_album, u, f) {
            let i = choose|i: int|
                0 <= i < rows.len() && crate::blacklist::failed_for(#[trigger] rows[i], other_album, u, f);
            assert(rows2[i] == rows[i]);
        }
    }
    assert(not_blacklisted(rows2, other_album) =~= not_blacklisted(rows, other_album));
    if done_in(rows2, other_album) {
        let i = choose|i: int| 0 <= i < rows2.len() && crate::blacklist::done_for(#[trigger] rows2[i], other_album);
        assert(i < rows.len());
        assert(rows[i] == rows2[i]);
    }
    if done_in(rows, other_album) {
        let i = choose|i: int| 0 <= i < rows.len() && crate::blacklist::done_for(#[trigger] rows[i], other_album);
        assert(rows2[i] == rows[i]);
    }
}

/// A cycle handles at most the configured number of albums, none of them done,
/// in the order Lidarr listed them.
pub proof fn law_cycle_handles_at_most_max_open_albums(
    wanted: Seq<WantedAlbum>,
    rows: Seq<BlacklistEntry>,
    max: usize,
)
    ensures
        albums_to_process(wanted, rows, max).len() <= max,
        forall|j: int|
            0 <= j < albums_to_process(wanted, rows, max).len() ==> !done_in(
                rows,
                (#[trigger] albums_to_process(wanted, rows, max)[j]).id,
            ),
        albums_to_process(wanted, rows, max).is_prefix_of(wanted.filter(not_done(rows))),
{
    broadcast use vstd::seq_lib::group_filter_ensures;

    let open = wanted.filter(not_done(rows));
    let r = albums_to_process(wanted, rows, max);
    assert forall|j: int| 0 <= j < r.len() implies !done_in(rows, (#[trigger] r[j]).id) by {
        assert(r[j] == open[j]);
        wanted.lemma_filter_pred(not_done(rows), j);
    }
}

/// An album whose viable candidates all failed has none left: once a failure row
/// is written for each of them, none of them is viable for the album again, so a
/// later cycle can only try folders it has not tried before.
pub proof fn law_failed_candidates_are_exhausted(
    rows: Seq<BlacklistEntry>,
    album_id: i64,
    candidates: Seq<Candidate>,
    failures: Seq<BlacklistEntry>,
)
    requires
        failures.len() == candidates.len(),
        forall|i: int|
            0 <= i < candidates.len() ==> crate::blacklist::failed_for(
                #[trigger] failures[i],
                album_id,
                candidates[i].username@,
                candidates[i].remote_folder@,
            ),
    ensures
        viable(candidates, rows + failures, album_id).len() == 0,
{
    broadcast use vstd::seq_lib::group_filter_ensures;

    let all = rows + failures;
    assert forall|i: int| 0 <= i < candidates.len() implies !not_blacklisted(all, album_id)(
        #[trigger] candidates[i],
    ) by {
        assert(all[rows.len() + i] == failures[i]);
    }
    let v = viable(candidates, all, album_id);
    if v.len() > 0 {
        candidates.lemma_filter_pred(not_blacklisted(all, album_id), 0);
        candidates.lemma_filter_contains_rev(not_blacklisted(all, album_id), v[0]);
        let j = choose|j: int| 0 <= j < candidates.len() && candidates[j] == v[0];
        assert(!not_blacklisted(all, album_id)(candidates[j]));
    }
}

/// Albums that have no row with status "done".
pub open spec fn without_done_row(rows: Seq<BlacklistEntry>) -> spec_fn(WantedAlbum) -> bool {
    |a: WantedAlbum| !(exists|t: int| 0 <= t < rows.len() && (#[trigger] rows[t]).album_id == a.id && rows[t].status@ == "done"@)
}

/// The albums a cycle handles are the wanted albums that have no "done" row, in
/// Lidarr's order, cut to the first `max` of them; rows of any other status
/// ("failed", "no_match") play no part.
pub proof fn law_albums_handled_are_the_first_without_done_row(
    wanted: Seq<WantedAlbum>,
    rows: Seq<BlacklistEntry>,
    max: usize,
)
    ensures
        albums_to_process(wanted, rows, max) == ({
            let f = wanted.filter(without_done_row(rows));
            if f.len() > max {
                f.take(max as int)
            } else {
                f
            }
        }),
{
    assert forall|a: WantedAlbum| #[trigger] not_done(rows)(a) == without_done_row(rows)(a) by {
        if done_in(rows, a.id) {
            let i = choose|i: int| 0 <= i < rows.len() && crate::blacklist::done_for(#[trigger] rows[i], a.id);
            assert(rows[i].album_id == a.id && rows[i].status@ == "done"@);
        }
        if !without_done_row(rows)(a) {
            let t = choose|t: int| 0 <= t < rows.len() && (#[trigger] rows[t]).album_id == a.id && rows[t].status@ == "done"@;
            assert(crate::blacklist::done_for(rows[t], a.id));
        }
    }
    assert(not_done(rows) =~= without_done_row(rows));
}

/// Recording "no match" for an album never changes which albums a cycle handles:
/// an album whose search found nothing is searched again next cycle.
pub proof fn law_no_match_keeps_the_album_wanted(
    wanted: Seq<WantedAlbum>,
    rows: Seq<BlacklistEntry>,
    e: BlacklistEntry,
    max: usize,
)
    requires
        e.status@ == status_text(BlacklistStatus::NoMatch),
    ensures
        albums_to_process(wanted, rows.push(e), max) == albums_to_process(wanted, rows, max),
{
    assert forall|a: WantedAlbum| #[trigger] not_done(rows.push(e))(a) == not_done(rows)(a) by {
        law_no_match_blocks_nothing(rows, e, a.id, Seq::empty(), Seq::empty());
    }
    assert(not_done(rows.push(e)) =~= not_done(rows));
}

/// Every ranked candidate that is not blacklisted for the album is viable, and
/// every viable candidate is a ranked one that is not blacklisted: nothing else is
/// dropped, nothing is added, and with nothing blacklisted all are kept in order.
pub proof fn law_viable_drops_only_blacklisted(
    ranked: Seq<Candidate>,
    rows: Seq<BlacklistEntry>,
    album_id: i64,
)
    ensures
        forall|i: int|
            0 <= i < ranked.len() && !blacklisted_in(rows, album_id, ranked[i].username@, ranked[i].remote_folder@)
                ==> viable(ranked, rows, album_id).contains(#[trigger] ranked[i]),
        forall|j: int|
            0 <= j < viable(ranked, rows, album_id).len() ==> ranked.contains(
                #[trigger] viable(ranked, rows, album_id)[j],
            ) && !blacklisted_in(
                rows,
                album_id,
                viable(ranked, rows, album_id)[j].username@,
                viable(ranked, rows, album_id)[j].remote_folder@,
            ),
        (forall|i: int|
            0 <= i < ranked.len() ==> !blacklisted_in(
                rows,
                album_id,
                (#[trigger] ranked[i]).username@,
                ranked[i].remote_folder@,
            )) ==> viable(ranked, rows, album_id) == ranked,
{
    broadcast use vstd::seq_lib::group_filter_ensures;

    let p = not_blacklisted(rows, album_id);
    let v = viable(ranked, rows, album_id);
    assert forall|j: int| 0 <= j < v.len() implies ranked.contains(#[trigger] v[j]) && !blacklisted_in(
        rows,
        album_id,
        v[j].username@,
        v[j].remote_folder@,
    ) by {
        ranked.lemma_filter_pred(p, j);
        assert(v.contains(v[j]));
        ranked.lemma_filter_contains_rev(p, v[j]);
    }
    if forall|i: int|
        0 <= i < ranked.len() ==> !blacklisted_in(
            rows,
            album_id,
            (#[trigger] ranked[i]).username@,
            ranked[i].remote_folder@,
        ) {
        assert forall|i: int| 0 <= i < ranked.len() implies p(#[trigger] ranked[i]) by {}
        crate::scorer::lemma_filter_keeps_all(ranked, p);
    }
}

/// A rejected candidate is recorded with reason "lidarr_rejected", one that could
/// not be downloaded or imported with "download_error", and an album without any
/// candidate with "no candidates above threshold".
pub proof fn law_recorded_reasons(r: Record, album_id: i64, c: Candidate)
    ensures
        is_failure_record(r, album_id, c, TryOutcome::Rejected) ==> opt_view(r.reason) == Some(
            "lidarr_rejected"@,
        ),
        is_failure_record(r, album_id, c, TryOutcome::Failed) ==> opt_view(r.reason) == Some(
            "download_error"@,
        ),
        is_no_match_record(r, album_id) ==> opt_view(r.reason) == Some(
            "no candidates above threshold"@,
        ) && r.status == BlacklistStatus::NoMatch,
        is_done_record(r, album_id) ==> r.status == BlacklistStatus::Done && r.reason is None,
{
}

} // verus!
