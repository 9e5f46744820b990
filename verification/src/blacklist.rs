//! The blacklist: a table of past attempts per album, remembering which
//! (album, user, folder) combinations failed and which albums are done.
//! Failed attempts expire after a cutoff so that they are retried eventually.

use vstd::prelude::*;
use crate::text::{lex_lt, opt_str_view, opt_to_string, opt_view, str_eq, str_lt};

verus! {

/// The outcome recorded for an album.
#[derive(Debug, Clone, Copy, PartialEq, Eq, Structural)]
pub enum BlacklistStatus {
    /// A candidate was tried and did not work.
    Failed,
    /// The album was imported.
    Done,
    /// No candidate was good enough to try.
    NoMatch,
}

/// The text stored for a status.
pub open spec fn status_text(s: BlacklistStatus) -> Seq<char> {
    match s {
        BlacklistStatus::Failed => "failed"@,
        BlacklistStatus::Done => "done"@,
        BlacklistStatus::NoMatch => "no_match"@,
    }
}

impl BlacklistStatus {
    /// The text stored for this status.
    pub fn as_str(&self) -> (r: &'static str)
        ensures
            r@ == status_text(*self),
    {
        match self {
            BlacklistStatus::Failed => "failed",
            BlacklistStatus::Done => "done",
            BlacklistStatus::NoMatch => "no_match",
        }
    }
}

/// One row of the table.
#[derive(Debug)]
pub struct BlacklistEntry {
    pub album_id: i64,
    pub username: Option<String>,
    pub folder: Option<String>,
    pub status: String,
    pub reason: Option<String>,
    /// When the attempt was made, as RFC 3339 text.
    pub attempted_at: String,
}

/// `e` records the given attempt.
pub open spec fn entry_records(
    e: BlacklistEntry,
    album_id: i64,
    username: Option<Seq<char>>,
    folder: Option<Seq<char>>,
    status: BlacklistStatus,
    reason: Option<Seq<char>>,
    attempted_at: Seq<char>,
) -> bool {
    &&& e.album_id == album_id
    &&& opt_view(e.username) == username
    &&& opt_view(e.folder) == folder
    &&& e.status@ == status_text(status)
    &&& opt_view(e.reason) == reason
    &&& e.attempted_at@ == attempted_at
}

/// `e` is a failed attempt at this album with this user's folder.
pub open spec fn failed_for(e: BlacklistEntry, album_id: i64, username: Seq<char>, folder: Seq<char>) -> bool {
    &&& e.album_id == album_id
    &&& opt_view(e.username) == Some(username)
    &&& opt_view(e.folder) == Some(folder)
    &&& e.status@ == "failed"@
}

/// `e` marks this album done.
pub open spec fn done_for(e: BlacklistEntry, album_id: i64) -> bool {
    e.album_id == album_id && e.status@ == "done"@
}

/// Some row is a failed attempt at this album with this user's folder.
pub open spec fn blacklisted_in(rows: Seq<BlacklistEntry>, album_id: i64, username: Seq<char>, folder: Seq<char>) -> bool {
    exists|i: int| 0 <= i < rows.len() && failed_for(#[trigger] rows[i], album_id, username, folder)
}

/// Some row marks this album done.
pub open spec fn done_in(rows: Seq<BlacklistEntry>, album_id: i64) -> bool {
    exists|i: int| 0 <= i < rows.len() && done_for(#[trigger] rows[i], album_id)
}

/// `e` is a failed attempt made before the cutoff.
pub open spec fn expired(e: BlacklistEntry, cutoff: Seq<char>) -> bool {
    e.status@ == "failed"@ && lex_lt(e.attempted_at@, cutoff)
}

/// Rows that are not expired at the cutoff.
pub open spec fn unexpired(cutoff: Seq<char>) -> spec_fn(BlacklistEntry) -> bool {
    |e: BlacklistEntry| !expired(e, cutoff)
}

/// The rows left after removing those expired at the cutoff.
pub open spec fn pruned(rows: Seq<BlacklistEntry>, cutoff: Seq<char>) -> Seq<BlacklistEntry> {
    rows.filter(unexpired(cutoff))
}

/// The RFC 3339 text that chrono gives for the UTC time `secs` seconds and
/// `nanos` nanoseconds after the Unix epoch; `None` when chrono cannot represent
/// that time.
pub uninterp spec fn utc_rfc3339(secs: i64, nanos: u32) -> Option<Seq<char>>;

/// Times that chrono can always represent: a nanosecond part below one second and
/// at most 8e12 seconds (about 253,000 years) either side of the epoch, well inside
/// chrono's years -262143 to 262142.
pub open spec fn representable_time(secs: int, nanos: u32) -> bool {
    nanos < 1_000_000_000 && -8_000_000_000_000 <= secs <= 8_000_000_000_000
}

/// Calls chrono's `DateTime::<Utc>::to_rfc3339` on the time built by
/// `DateTime::from_timestamp`. Claimed: the text is `utc_rfc3339` of the
/// arguments, a function of them alone, and there is a text for every
/// representable time (`from_timestamp` refuses only seconds whose day falls
/// outside chrono's date range and nanosecond parts that are not a valid time of
/// day).
#[verifier::external_body]
fn rfc3339_at(secs: i64, nanos: u32) -> (r: Option<String>)
    ensures
        opt_view(r) == utc_rfc3339(secs, nanos),
        representable_time(secs as int, nanos) ==> r is Some,
{
    match chrono::DateTime::from_timestamp(secs, nanos) {
        Some(t) => Some(t.to_rfc3339()),
        None => None,
    }
}

/// The RFC 3339 text of the moment `secs` seconds and `nanos` nanoseconds after
/// the epoch, as recorded in the time of an attempt.
pub fn rfc3339_time(secs: i64, nanos: u32) -> (r: Option<String>)
    ensures
        opt_view(r) == utc_rfc3339(secs, nanos),
        representable_time(secs as int, nanos) ==> r is Some,
{
    rfc3339_at(secs, nanos)
}

/// Seconds since the epoch of the moment `ttl_days` whole days before `now_secs`.
pub open spec fn ttl_cutoff_secs(now_secs: i64, ttl_days: u64) -> int {
    now_secs - 86400 * ttl_days
}

/// The cutoff text for a time to live of `ttl_days` days at the given moment: the
/// RFC 3339 text of the same time of day `ttl_days` days earlier, `None` when that
/// moment cannot be represented.
pub open spec fn ttl_cutoff_text(now_secs: i64, now_nanos: u32, ttl_days: u64) -> Option<Seq<char>> {
    if ttl_cutoff_secs(now_secs, ttl_days) >= i64::MIN {
        utc_rfc3339(ttl_cutoff_secs(now_secs, ttl_days) as i64, now_nanos)
    } else {
        None
    }
}

/// The cutoff before which failed attempts expire, for a time to live of
/// `ttl_days` days at the moment `now_secs` (plus `now_nanos`) after the epoch.
pub fn ttl_cutoff(now_secs: i64, now_nanos: u32, ttl_days: u64) -> (r: Option<String>)
    ensures
        opt_view(r) == ttl_cutoff_text(now_secs, now_nanos, ttl_days),
        representable_time(ttl_cutoff_secs(now_secs, ttl_days), now_nanos) ==> r is Some,
{
    let back: i128 = (ttl_days as i128) * 86400;
    let c: i128 = (now_secs as i128) - back;
    if c < (i64::MIN as i128) {
        None
    } else {
        rfc3339_at(c as i64, now_nanos)
    }
}

impl BlacklistEntry {
    /// The row recording an attempt.
    pub fn new(
        album_id: i64,
        username: Option<&str>,
        folder: Option<&str>,
        status: BlacklistStatus,
        reason: Option<&str>,
        attempted_at: &str,
    ) -> (e: BlacklistEntry)
        ensures
            entry_records(
                e,
                album_id,
                opt_str_view(username),
                opt_str_view(folder),
                status,
                opt_str_view(reason),
                attempted_at@,
            ),
    {
        BlacklistEntry {
            album_id,
            username: opt_to_string(username),
            folder: opt_to_string(folder),
            status: String::from_str(status.as_str()),
            reason: opt_to_string(reason),
            attempted_at: String::from_str(attempted_at),
        }
    }

    /// Whether this row is a failed attempt made before the cutoff.
    pub fn is_expired(&self, cutoff: &str) -> (r: bool)
        ensures
            r == expired(*self, cutoff@),
    {
        str_eq(self.status.as_str(), "failed") && str_lt(self.attempted_at.as_str(), cutoff)
    }

    fn is_failed_for(&self, album_id: i64, username: &str, folder: &str) -> (r: bool)
        ensures
            r == failed_for(*self, album_id, username@, folder@),
    {
        if self.album_id != album_id || !str_eq(self.status.as_str(), "failed") {
            return false;
        }
        match (&self.username, &self.folder) {
            (Some(u), Some(f)) => str_eq(u.as_str(), username) && str_eq(f.as_str(), folder),
            _ => false,
        }
    }

    fn is_done_for(&self, album_id: i64) -> (r: bool)
        ensures
            r == done_for(*self, album_id),
    {
        self.album_id == album_id && str_eq(self.status.as_str(), "done")
    }
}

/// The blacklist table, its rows in insertion order.
#[derive(Debug)]
pub struct Blacklist {
    entries: Vec<BlacklistEntry>,
}

impl View for Blacklist {
    type V = Seq<BlacklistEntry>;

    closed spec fn view(&self) -> Seq<BlacklistEntry> {
        self.entries@
    }
}

impl Blacklist {
    /// An empty table.
    pub fn new() -> (b: Blacklist)
        ensures
            b@ == Seq::<BlacklistEntry>::empty(),
    {
        Blacklist { entries: Vec::new() }
    }

    /// A table holding the given rows.
    pub fn from_entries(entries: Vec<BlacklistEntry>) -> (b: Blacklist)
        ensures
            b@ == entries@,
    {
        Blacklist { entries }
    }

    /// The rows, in insertion order.
    pub fn entries(&self) -> (r: &Vec<BlacklistEntry>)
        ensures
            r@ == self@,
    {
        &self.entries
    }

    /// Whether this (album, user, folder) combination has a failed attempt.
    pub fn is_blacklisted(&self, album_id: i64, username: &str, folder: &str) -> (r: bool)
        ensures
            r == blacklisted_in(self@, album_id, username@, folder@),
    {
        let mut i: usize = 0;
        while i < self.entries.len()
            invariant
                i <= self.entries.len(),
                forall|j: int|
                    0 <= j < i ==> !failed_for(#[trigger] self.entries@[j], album_id, username@, folder@),
            decreases self.entries.len() - i,
        {
            if self.entries[i].is_failed_for(album_id, username, folder) {
                return true;
            }
            i = i + 1;
        }
        false
    }

    /// Whether the album is marked done.
    pub fn is_done(&self, album_id: i64) -> (r: bool)
        ensures
            r == done_in(self@, album_id),
    {
        let mut i: usize = 0;
        while i < self.entries.len()
            invariant
                i <= self.entries.len(),
                forall|j: int| 0 <= j < i ==> !done_for(#[trigger] self.entries@[j], album_id),
            decreases self.entries.len() - i,
        {
            if self.entries[i].is_done_for(album_id) {
                return true;
            }
            i = i + 1;
        }
        false
    }

    /// Records an attempt at the end of the table.
    pub fn insert(
        &mut self,
        album_id: i64,
        username: Option<&str>,
        folder: Option<&str>,
        status: BlacklistStatus,
        reason: Option<&str>,
        attempted_at: &str,
    )
        ensures
            final(self)@.len() == old(self)@.len() + 1,
            final(self)@.drop_last() == old(self)@,
            entry_records(
                final(self)@.last(),
                album_id,
                opt_str_view(username),
                opt_str_view(folder),
                status,
                opt_str_view(reason),
                attempted_at@,
            ),
    {
        let e = BlacklistEntry::new(album_id, username, folder, status, reason, attempted_at);
        self.entries.push(e);
        assert(self.entries@.drop_last() =~= old(self).entries@);
    }

    /// Removes the failed attempts made before the cutoff; returns how many rows
    /// were removed.
    pub fn prune_expired(&mut self, cutoff: &str) -> (removed: usize)
        ensures
            final(self)@ == pruned(old(self)@, cutoff@),
            removed == old(self)@.len() - final(self)@.len(),
    {
        let ghost orig = self.entries@;
        let mut kept: Vec<BlacklistEntry> = Vec::new();
        let mut rest = Vec::new();
        std::mem::swap(&mut rest, &mut self.entries);
        let ghost mut i: int = 0;
        let mut removed: usize = 0;
        assert(orig.len() == rest.len());
        while rest.len() > 0
            invariant
                0 <= i <= orig.len(),
                orig.len() <= usize::MAX,
                kept@.len() <= i,
                rest@ == orig.skip(i),
                kept@ == pruned(orig.take(i), cutoff@),
                removed == i - kept@.len(),
            decreases rest.len(),
        {
            let e = rest.remove(0);
            proof {
                assert(e == orig[i]);
                assert(orig.take(i + 1).drop_last() =~= orig.take(i));
                reveal(Seq::filter);
            }
            if e.is_expired(cutoff) {
                removed = removed + 1;
            } else {
                kept.push(e);
            }
            proof {
                i = i + 1;
                orig.take(i).lemma_filter_len(unexpired(cutoff@));
            }
        }
        assert(orig.take(i) =~= orig);
        self.entries = kept;
        removed
    }
}

impl Blacklist {
    /// Removes the failed attempts older than the time to live at the given
    /// moment; returns how many rows were removed, or `None` (leaving the table
    /// as it was) when the cutoff moment cannot be represented.
    pub fn prune_older_than(&mut self, now_secs: i64, now_nanos: u32, ttl_days: u64) -> (removed: Option<usize>)
        ensures
            ttl_cutoff_text(now_secs, now_nanos, ttl_days) is None ==> removed is None
                && final(self)@ == old(self)@,
            ttl_cutoff_text(now_secs, now_nanos, ttl_days) matches Some(c) ==> {
                &&& final(self)@ == pruned(old(self)@, c)
                &&& removed == Some((old(self)@.len() - final(self)@.len()) as usize)
            },
            representable_time(ttl_cutoff_secs(now_secs, ttl_days), now_nanos) ==> removed is Some,
    {
        match ttl_cutoff(now_secs, now_nanos, ttl_days) {
            None => None,
            Some(c) => Some(self.prune_expired(c.as_str())),
        }
    }
}

// ---------------------------------------------------------------------------
// Laws
// ---------------------------------------------------------------------------

/// A recorded failure blacklists its (album, user, folder) combination.
pub proof fn law_failed_attempt_is_remembered(rows: Seq<BlacklistEntry>, e: BlacklistEntry)
    requires
        e.status@ == status_text(BlacklistStatus::Failed),
        e.username is Some,
        e.folder is Some,
    ensures
        blacklisted_in(rows.push(e), e.album_id, e.username->0@, e.folder->0@),
{
    assert(rows.push(e)[rows.len() as int] == e);
}

/// A recorded import marks the album done.
pub proof fn law_done_is_remembered(rows: Seq<BlacklistEntry>, e: BlacklistEntry)
    requires
        e.status@ == status_text(BlacklistStatus::Done),
    ensures
        done_in(rows.push(e), e.album_id),
{
    assert(rows.push(e)[rows.len() as int] == e);
}

/// Recording an attempt never clears a blacklisted combination or a done album.
pub proof fn law_insert_keeps_what_was_known(
    rows: Seq<BlacklistEntry>,
    e: BlacklistEntry,
    album_id: i64,
    username: Seq<char>,
    folder: Seq<char>,
)
    ensures
        blacklisted_in(rows, album_id, username, folder) ==> blacklisted_in(
            rows.push(e),
            album_id,
            username,
            folder,
        ),
        done_in(rows, album_id) ==> done_in(rows.push(e), album_id),
{
    if blacklisted_in(rows, album_id, username, folder) {
        let i = choose|i: int| 0 <= i < rows.len() && failed_for(#[trigger] rows[i], album_id, username, folder);
        assert(rows.push(e)[i] == rows[i]);
    }
    if done_in(rows, album_id) {
        let i = choose|i: int| 0 <= i < rows.len() && done_for(#[trigger] rows[i], album_id);
        assert(rows.push(e)[i] == rows[i]);
    }
}

/// A recorded "no match" neither blacklists a combination nor marks an album done.
pub proof fn law_no_match_blocks_nothing(
    rows: Seq<BlacklistEntry>,
    e: BlacklistEntry,
    album_id: i64,
    username: Seq<char>,
    folder: Seq<char>,
)
    requires
        e.status@ == status_text(BlacklistStatus::NoMatch),
    ensures
        blacklisted_in(rows.push(e), album_id, username, folder) == blacklisted_in(
            rows,
            album_id,
            username,
            folder,
        ),
        done_in(rows.push(e), album_id) == done_in(rows, album_id),
{
    reveal_strlit("no_match");
    reveal_strlit("failed");
    reveal_strlit("done");
    assert("no_match"@.len() == 8 && "failed"@.len() == 6 && "done"@.len() == 4);
    assert(rows.push(e)[rows.len() as int] == e);
    law_insert_keeps_what_was_known(rows, e, album_id, username, folder);
    if blacklisted_in(rows.push(e), album_id, username, folder) {
        let i = choose|i: int|
            0 <= i < rows.push(e).len() && failed_for(#[trigger] rows.push(e)[i], album_id, username, folder);
        assert(i < rows.len());
        assert(rows[i] == rows.push(e)[i]);
    }
    if done_in(rows.push(e), album_id) {
        let i = choose|i: int| 0 <= i < rows.push(e).len() && done_for(#[trigger] rows.push(e)[i], album_id);
        assert(i < rows.len());
        assert(rows[i] == rows.push(e)[i]);
    }
}

proof fn lemma_pruned_members(rows: Seq<BlacklistEntry>, cutoff: Seq<char>)
    ensures
        forall|x: BlacklistEntry|
            #[trigger] pruned(rows, cutoff).contains(x) <==> rows.contains(x) && !expired(x, cutoff),
{
    broadcast use vstd::seq_lib::group_filter_ensures;

    assert forall|x: BlacklistEntry| #[trigger]
        pruned(rows, cutoff).contains(x) implies rows.contains(x) && !expired(x, cutoff) by {
        let j = choose|j: int| 0 <= j < pruned(rows, cutoff).len() && pruned(rows, cutoff)[j] == x;
        rows.lemma_filter_pred(unexpired(cutoff), j);
        rows.lemma_filter_contains_rev(unexpired(cutoff), x);
    }
    assert forall|x: BlacklistEntry|
        rows.contains(x) && !expired(x, cutoff) implies #[trigger] pruned(rows, cutoff).contains(x) by {
        let j = choose|j: int| 0 <= j < rows.len() && rows[j] == x;
        rows.lemma_filter_contains(unexpired(cutoff), j);
    }
}

/// Pruning never touches a done album.
pub proof fn law_prune_keeps_done(rows: Seq<BlacklistEntry>, cutoff: Seq<char>, album_id: i64)
    ensures
        done_in(pruned(rows, cutoff), album_id) == done_in(rows, album_id),
{
    reveal_strlit("failed");
    reveal_strlit("done");
    assert("failed"@.len() == 6 && "done"@.len() == 4);
    lemma_pruned_members(rows, cutoff);
    let p = pruned(rows, cutoff);
    if done_in(rows, album_id) {
        let i = choose|i: int| 0 <= i < rows.len() && done_for(#[trigger] rows[i], album_id);
        assert(rows.contains(rows[i]));
        assert(!expired(rows[i], cutoff));
        assert(p.contains(rows[i]));
    }
    if done_in(p, album_id) {
        let i = choose|i: int| 0 <= i < p.len() && done_for(#[trigger] p[i], album_id);
        assert(p.contains(p[i]));
    }
}

/// After pruning, a combination is blacklisted exactly when some failed attempt
/// at it was made at or after the cutoff.
pub proof fn law_prune_forgets_only_expired_failures(
    rows: Seq<BlacklistEntry>,
    cutoff: Seq<char>,
    album_id: i64,
    username: Seq<char>,
    folder: Seq<char>,
)
    ensures
        blacklisted_in(pruned(rows, cutoff), album_id, username, folder) <==> exists|i: int|
            0 <= i < rows.len() && failed_for(#[trigger] rows[i], album_id, username, folder)
                && !lex_lt(rows[i].attempted_at@, cutoff),
{
    lemma_pruned_members(rows, cutoff);
    let p = pruned(rows, cutoff);
    if blacklisted_in(p, album_id, username, folder) {
        let i = choose|i: int| 0 <= i < p.len() && failed_for(#[trigger] p[i], album_id, username, folder);
        assert(p.contains(p[i]));
        let j = choose|j: int| 0 <= j < rows.len() && rows[j] == p[i];
        assert(failed_for(rows[j], album_id, username, folder) && !lex_lt(rows[j].attempted_at@, cutoff));
    }
    if exists|i: int|
        0 <= i < rows.len() && failed_for(#[trigger] rows[i], album_id, username, folder)
            && !lex_lt(rows[i].attempted_at@, cutoff) {
        let i = choose|i: int|
            0 <= i < rows.len() && failed_for(#[trigger] rows[i], album_id, username, folder)
                && !lex_lt(rows[i].attempted_at@, cutoff);
        assert(rows.contains(rows[i]));
        assert(p.contains(rows[i]));
        let j = choose|j: int| 0 <= j < p.len() && p[j] == rows[i];
        assert(failed_for(p[j], album_id, username, folder));
    }
}

/// Pruning twice at the same cutoff removes nothing more.
pub proof fn law_prune_is_idempotent(rows: Seq<BlacklistEntry>, cutoff: Seq<char>)
    ensures
        pruned(pruned(rows, cutoff), cutoff) == pruned(rows, cutoff),
{
    let p = pruned(rows, cutoff);
    lemma_filter_all_kept(p, unexpired(cutoff));
}

proof fn lemma_filter_all_kept(s: Seq<BlacklistEntry>, pred: spec_fn(BlacklistEntry) -> bool)
    requires
        forall|i: int| 0 <= i < s.len() ==> pred(#[trigger] s[i]),
    ensures
        s.filter(pred) == s,
    decreases s.len(),
{
    reveal(Seq::filter);
    if s.len() > 0 {
        lemma_filter_all_kept(s.drop_last(), pred);
        assert(s.drop_last().push(s.last()) =~= s);
    }
}

/// Failed matches expire after the time to live: after pruning at a moment, a
/// combination stays blacklisted exactly when it has a failed attempt made no
/// earlier than `ttl_days` days before that moment.
pub proof fn law_failures_expire_after_ttl(
    rows: Seq<BlacklistEntry>,
    now_secs: i64,
    now_nanos: u32,
    ttl_days: u64,
    album_id: i64,
    username: Seq<char>,
    folder: Seq<char>,
)
    requires
        ttl_cutoff_text(now_secs, now_nanos, ttl_days) is Some,
    ensures
        ({
            let c = ttl_cutoff_text(now_secs, now_nanos, ttl_days)->0;
            blacklisted_in(pruned(rows, c), album_id, username, folder) <==> exists|i: int|
                0 <= i < rows.len() && failed_for(#[trigger] rows[i], album_id, username, folder)
                    && !lex_lt(rows[i].attempted_at@, c)
        }),
{
    let c = ttl_cutoff_text(now_secs, now_nanos, ttl_days)->0;
    law_prune_forgets_only_expired_failures(rows, c, album_id, username, folder);
}

/// The stored status texts are "failed", "done" and "no_match", and the blacklist
/// queries read exactly those: a row blacklists only with the text "failed" and
/// marks done only with the text "done".
pub proof fn law_status_texts(e: BlacklistEntry, album_id: i64, username: Seq<char>, folder: Seq<char>)
    ensures
        status_text(BlacklistStatus::Failed) == "failed"@,
        status_text(BlacklistStatus::Done) == "done"@,
        status_text(BlacklistStatus::NoMatch) == "no_match"@,
        failed_for(e, album_id, username, folder) ==> e.status@ == "failed"@ && e.album_id == album_id,
        done_for(e, album_id) ==> e.status@ == "done"@ && e.album_id == album_id,
        e.album_id == album_id && opt_view(e.username) == Some(username) && opt_view(e.folder) == Some(
            folder,
        ) && e.status@ == "failed"@ ==> failed_for(e, album_id, username, folder),
        e.album_id == album_id && e.status@ == "done"@ ==> done_for(e, album_id),
{
}

} // verus!
