//! Grouping search responses into candidate folders, the integer and text parts
//! of a candidate's score, and ranking scored candidates best first.

use vstd::prelude::*;
use crate::slskd::{SearchResponse, SlskdFile};
use crate::text::{
    ascii_lower, chars_eq, chars_of, contains_chars, is_ascii_seq, opt_view, str_eq, contains_seq, ends_with_chars, ends_with_seq, lowercase,
    string_from_chars, to_lowercase,
};

verus! {

// ---------------------------------------------------------------------------
// Audio files
// ---------------------------------------------------------------------------

/// The extensions counted as audio when scoring, lower case.
pub open spec fn audio_extensions() -> Seq<Seq<char>> {
    seq!["flac"@, "mp3"@, "aac"@, "ogg"@, "opus"@, "wav"@, "m4a"@, "wv"@, "ape"@]
}

/// The text whose lower-cased form decides whether a file is audio: its
/// extension, or its name when it has none.
pub open spec fn audio_probe(f: SlskdFile) -> Seq<char> {
    match f.extension {
        Some(e) => e@,
        None => f.filename@,
    }
}

/// Given the lower-cased probe text: with an extension, audio when it is an audio
/// extension; without one, audio when the name ends with an audio extension.
pub open spec fn audio_by_lowered(has_extension: bool, lowered: Seq<char>) -> bool {
    if has_extension {
        audio_extensions().contains(lowered)
    } else {
        exists|i: int|
            0 <= i < audio_extensions().len() && ends_with_seq(
                lowered,
                #[trigger] audio_extensions()[i],
            )
    }
}

/// A file is audio when its extension, lower-cased, is an audio extension; a file
/// without an extension is audio when its lower-cased name ends with one.
pub open spec fn is_audio_file(f: SlskdFile) -> bool {
    audio_by_lowered(f.extension is Some, lowercase(audio_probe(f)))
}

fn audio_extension(i: usize) -> (r: &'static str)
    requires
        i < 9,
    ensures
        r@ == audio_extensions()[i as int],
{
    match i {
        0 => "flac",
        1 => "mp3",
        2 => "aac",
        3 => "ogg",
        4 => "opus",
        5 => "wav",
        6 => "m4a",
        7 => "wv",
        _ => "ape",
    }
}

/// Whether a file with (`has_extension`) or without an extension is audio, given
/// the lower-cased form of that extension or of the file's name.
pub fn is_audio_lowered(has_extension: bool, lowered: &str) -> (r: bool)
    ensures
        r == audio_by_lowered(has_extension, lowered@),
{
    assert(audio_extensions().len() == 9);
    let lv = chars_of(lowered);
    let mut i: usize = 0;
    while i < 9
        invariant
            i <= 9,
            lv@ == lowered@,
            audio_extensions().len() == 9,
            has_extension ==> forall|j: int| 0 <= j < i ==> audio_extensions()[j] != lv@,
            !has_extension ==> forall|j: int|
                0 <= j < i ==> !ends_with_seq(lv@, #[trigger] audio_extensions()[j]),
        decreases 9 - i,
    {
        let cand = chars_of(audio_extension(i));
        if has_extension {
            if chars_eq(&lv, &cand) {
                assert(audio_extensions()[i as int] == lv@);
                assert(audio_extensions().contains(lv@));
                return true;
            }
        } else {
            if ends_with_chars(&lv, &cand) {
                assert(ends_with_seq(lv@, audio_extensions()[i as int]));
                return true;
            }
        }
        i = i + 1;
    }
    false
}

/// Whether a file counts as audio (see `is_audio_file`).
pub fn is_audio(file: &SlskdFile) -> (r: bool)
    ensures
        r == is_audio_file(*file),
        is_ascii_seq(audio_probe(*file)) ==> lowercase(audio_probe(*file)) == ascii_lower(
            audio_probe(*file),
        ),
{
    let lower = match &file.extension {
        Some(ext) => to_lowercase(ext.as_str()),
        None => to_lowercase(file.filename.as_str()),
    };
    is_audio_lowered(file.extension.is_some(), lower.as_str())
}

/// The audio files among `files`, in order.
pub open spec fn audio_files(files: Seq<SlskdFile>) -> Seq<SlskdFile> {
    files.filter(|f: SlskdFile| is_audio_file(f))
}

/// Copies of the audio files among `files`, in order.
pub fn select_audio(files: &Vec<SlskdFile>) -> (r: Vec<SlskdFile>)
    ensures
        r@ == audio_files(files@),
{
    let mut r: Vec<SlskdFile> = Vec::new();
    let mut i: usize = 0;
    while i < files.len()
        invariant
            i <= files.len(),
            r@ == audio_files(files@.take(i as int)),
        decreases files.len() - i,
    {
        assert(files@.take(i + 1).drop_last() =~= files@.take(i as int));
        reveal(Seq::filter);
        if is_audio(&files[i]) {
            r.push(files[i].copy());
        }
        i = i + 1;
    }
    assert(files@.take(files.len() as int) =~= files@);
    r
}

// ---------------------------------------------------------------------------
// Folders
// ---------------------------------------------------------------------------

/// Index of the last backslash in `s`, or -1 when there is none.
pub open spec fn last_backslash(s: Seq<char>) -> int
    decreases s.len(),
{
    if s.len() == 0 {
        -1
    } else if s.last() == '\\' {
        s.len() - 1
    } else {
        last_backslash(s.drop_last())
    }
}

/// The folder part of a backslash-separated path: everything before the last
/// backslash, or the whole name when it has none.
pub open spec fn folder_of(s: Seq<char>) -> Seq<char> {
    if last_backslash(s) >= 0 {
        s.take(last_backslash(s))
    } else {
        s
    }
}

proof fn lemma_last_backslash(s: Seq<char>)
    ensures
        -1 <= last_backslash(s) < s.len(),
        last_backslash(s) >= 0 ==> s[last_backslash(s)] == '\\',
        forall|j: int| last_backslash(s) < j < s.len() ==> s[j] != '\\',
    decreases s.len(),
{
    if s.len() > 0 && s.last() != '\\' {
        lemma_last_backslash(s.drop_last());
        assert forall|j: int| last_backslash(s) < j < s.len() implies s[j] != '\\' by {
            if j < s.len() - 1 {
                assert(s.drop_last()[j] == s[j]);
            }
        }
    }
}

/// The folder of a path is the path up to its last backslash: a prefix of the path,
/// followed in it by a backslash after which none follows; a path without a
/// backslash is its own folder.
pub proof fn law_folder_is_path_before_last_separator(path: Seq<char>)
    ensures
        path.take(folder_of(path).len() as int) == folder_of(path),
        (exists|i: int| 0 <= i < path.len() && path[i] == '\\') ==> {
            &&& folder_of(path).len() < path.len()
            &&& path[folder_of(path).len() as int] == '\\'
            &&& forall|j: int| folder_of(path).len() < j < path.len() ==> path[j] != '\\'
        },
        !(exists|i: int| 0 <= i < path.len() && path[i] == '\\') ==> folder_of(path) == path,
{
    lemma_last_backslash(path);
    if last_backslash(path) < 0 {
        assert(path.take(path.len() as int) =~= path);
    }
}

/// The folder of a Soulseek path (see `folder_of`).
pub fn extract_folder(filename: &str) -> (r: String)
    ensures
        r@ == folder_of(filename@),
{
    let v = chars_of(filename);
    let mut n = v.len();
    assert(v@.take(n as int) =~= v@);
    while n > 0 && v[n - 1] != '\\'
        invariant
            n <= v.len(),
            last_backslash(v@) == last_backslash(v@.take(n as int)),
        decreases n,
    {
        assert(v@.take(n as int).drop_last() =~= v@.take(n - 1));
        n = n - 1;
    }
    if n == 0 {
        assert(last_backslash(v@.take(0)) == -1);
        return String::from_str(filename);
    }
    assert(last_backslash(v@) == n - 1);
    let mut out: Vec<char> = Vec::new();
    let mut i: usize = 0;
    while i < n - 1
        invariant
            0 < n <= v.len(),
            i <= n - 1,
            out@ == v@.take(i as int),
        decreases n - 1 - i,
    {
        out.push(v[i]);
        assert(v@.take(i + 1) =~= v@.take(i as int).push(v@[i as int]));
        i = i + 1;
    }
    string_from_chars(&out)
}

// ---------------------------------------------------------------------------
// Dominant format
// ---------------------------------------------------------------------------

/// The lower-cased extensions of the files that have one, in order.
pub open spec fn file_extensions(files: Seq<SlskdFile>) -> Seq<Seq<char>>
    decreases files.len(),
{
    if files.len() == 0 {
        Seq::empty()
    } else {
        let rest = file_extensions(files.drop_last());
        match files.last().extension {
            Some(e) => rest.push(lowercase(e@)),
            None => rest,
        }
    }
}

/// How many times `e` occurs in `s`.
pub open spec fn count_in(s: Seq<Seq<char>>, e: Seq<char>) -> nat
    decreases s.len(),
{
    if s.len() == 0 {
        0
    } else {
        count_in(s.drop_last(), e) + if s.last() == e {
            1nat
        } else {
            0nat
        }
    }
}

/// `r` is a most frequent extension of `exts` (`None` exactly when there is none).
pub open spec fn is_dominant(exts: Seq<Seq<char>>, r: Option<Seq<char>>) -> bool {
    match r {
        None => exts.len() == 0,
        Some(k) => exts.contains(k) && forall|i: int|
            0 <= i < exts.len() ==> count_in(exts, #[trigger] exts[i]) <= count_in(exts, k),
    }
}

/// `r` is the first of the most frequent extensions of `exts`.
pub open spec fn is_first_dominant(exts: Seq<Seq<char>>, r: Option<Seq<char>>) -> bool {
    &&& is_dominant(exts, r)
    &&& r matches Some(k) ==> exists|b: int|
        0 <= b < exts.len() && exts[b] == k && forall|j: int|
            0 <= j < b ==> count_in(exts, #[trigger] exts[j]) < count_in(exts, k)
}

/// The characters of each string.
pub open spec fn views(s: Seq<String>) -> Seq<Seq<char>> {
    s.map_values(|x: String| x@)
}

/// The most frequent of the given (lower-cased) extensions; ties go to the one met
/// first.
pub fn most_frequent(exts: &Vec<String>) -> (r: Option<String>)
    ensures
        is_first_dominant(views(exts@), opt_view(r)),
{
    let ghost all = views(exts@);
    if exts.len() == 0 {
        return None;
    }
    let mut best: usize = 0;
    let mut best_count: usize = 0;
    let mut t: usize = 0;
    while t < exts.len()
        invariant
            exts.len() == all.len(),
            exts.len() > 0,
            all == views(exts@),
            t <= exts.len(),
            best < exts.len(),
            t > 0 ==> best < t,
            t > 0 ==> best_count == count_in(all, all[best as int]),
            forall|j: int| 0 <= j < t ==> count_in(all, #[trigger] all[j]) <= best_count,
            forall|j: int| 0 <= j < best ==> count_in(all, #[trigger] all[j]) < best_count,
        decreases exts.len() - t,
    {
        let mut c: usize = 0;
        let mut j: usize = 0;
        while j < exts.len()
            invariant
                exts.len() == all.len(),
                all == views(exts@),
                t < exts.len(),
                j <= exts.len(),
                c == count_in(all.take(j as int), all[t as int]),
                c <= j,
            decreases exts.len() - j,
        {
            assert(all.take(j + 1).drop_last() =~= all.take(j as int));
            if exts[j] == exts[t] {
                c = c + 1;
            }
            j = j + 1;
        }
        assert(all.take(exts.len() as int) =~= all);
        if t == 0 || c > best_count {
            best = t;
            best_count = c;
        }
        t = t + 1;
    }
    assert(all.contains(all[best as int]));
    Some(exts[best].clone())
}

/// The most frequent lower-cased extension among the files; ties go to the one
/// met first.
pub fn dominant_format(files: &Vec<SlskdFile>) -> (r: Option<String>)
    ensures
        is_first_dominant(file_extensions(files@), opt_view(r)),
{
    let mut exts: Vec<String> = Vec::new();
    let mut i: usize = 0;
    while i < files.len()
        invariant
            i <= files.len(),
            views(exts@) == file_extensions(files@.take(i as int)),
        decreases files.len() - i,
    {
        assert(files@.take(i + 1).drop_last() =~= files@.take(i as int));
        match &files[i].extension {
            Some(e) => {
                let l = to_lowercase(e.as_str());
                exts.push(l);
                assert(views(exts@) =~= file_extensions(files@.take(i as int)).push(lowercase(e@)));
            },
            None => {},
        }
        i = i + 1;
    }
    assert(files@.take(files.len() as int) =~= files@);
    most_frequent(&exts)
}

// ---------------------------------------------------------------------------
// Score parts
// ---------------------------------------------------------------------------

/// How the number of audio files compares with the expected track count.
#[derive(Debug, Clone, Copy, PartialEq, Eq, Structural)]
pub enum TrackMatch {
    /// No expected count is known.
    Unknown,
    /// Between 0.8 and 1.3 times the expected count.
    Close,
    /// At least 0.6 times the expected count, but not close.
    Near,
    /// Fewer than 0.6 times the expected count.
    Far,
}

/// The track-count class of `n` audio files against the expected count, with the
/// ratio bounds 0.8, 1.3 and 0.6 compared exactly.
pub open spec fn track_match_of(n: nat, expected: Option<usize>) -> TrackMatch {
    match expected {
        None => TrackMatch::Unknown,
        Some(e) => if 5 * n >= 4 * e && 10 * n <= 13 * e {
            TrackMatch::Close
        } else if 5 * n >= 3 * e {
            TrackMatch::Near
        } else {
            TrackMatch::Far
        },
    }
}

/// The track-count class (see `track_match_of`).
pub fn track_match(n: usize, expected: Option<usize>) -> (r: TrackMatch)
    ensures
        r == track_match_of(n as nat, expected),
{
    match expected {
        None => TrackMatch::Unknown,
        Some(e) => {
            let n5 = (n as u128) * 5;
            let e4 = (e as u128) * 4;
            let n10 = (n as u128) * 10;
            let e13 = (e as u128) * 13;
            let e3 = (e as u128) * 3;
            if n5 >= e4 && n10 <= e13 {
                TrackMatch::Close
            } else if n5 >= e3 {
                TrackMatch::Near
            } else {
                TrackMatch::Far
            }
        },
    }
}

/// Index of the first element of `s` equal to `x`.
pub open spec fn first_index(s: Seq<Seq<char>>, x: Seq<char>) -> Option<int>
    decreases s.len(),
{
    if s.len() == 0 {
        None
    } else if s[0] == x {
        Some(0)
    } else {
        match first_index(s.drop_first(), x) {
            Some(i) => Some(i + 1),
            None => None,
        }
    }
}

proof fn lemma_first_index(s: Seq<Seq<char>>, x: Seq<char>, i: int)
    requires
        0 <= i <= s.len(),
        forall|j: int| 0 <= j < i ==> s[j] != x,
    ensures
        i < s.len() && s[i] == x ==> first_index(s, x) == Some(i),
        i == s.len() ==> first_index(s, x) is None,
    decreases i,
{
    if i > 0 {
        lemma_first_index(s.drop_first(), x, i - 1);
    }
}

/// Position of the first preferred format equal to `fmt`.
pub fn format_position(preferred: &Vec<String>, fmt: &String) -> (r: Option<usize>)
    ensures
        r matches Some(p) ==> first_index(views(preferred@), fmt@) == Some(p as int),
        r is None ==> first_index(views(preferred@), fmt@) is None,
{
    let ghost ps = views(preferred@);
    let mut i: usize = 0;
    while i < preferred.len()
        invariant
            i <= preferred.len(),
            ps == views(preferred@),
            forall|j: int| 0 <= j < i ==> ps[j] != fmt@,
        decreases preferred.len() - i,
    {
        if preferred[i] == *fmt {
            proof {
                lemma_first_index(ps, fmt@, i as int);
            }
            return Some(i);
        }
        i = i + 1;
    }
    proof {
        lemma_first_index(ps, fmt@, i as int);
    }
    None
}

/// The parts of a candidate's score that need no floating point.
#[derive(Debug)]
pub struct ScoreParts {
    /// Number of audio files in the folder (at least one).
    pub audio_files: usize,
    /// Track-count class of the audio files.
    pub track_match: TrackMatch,
    /// A most frequent lower-cased extension among the audio files.
    pub dominant_format: Option<String>,
    /// Position of the dominant format among the preferred formats.
    pub format_rank: Option<usize>,
    /// The folder name, lower-cased.
    pub folder_lower: String,
    /// "{artist} - {album}", lower-cased.
    pub target_lower: String,
    /// Whether the lower-cased artist occurs in the lower-cased folder name.
    pub artist_in_folder: bool,
}

/// `parts` describes `files` in `folder` against the wanted artist and album.
pub open spec fn score_parts_of(
    parts: ScoreParts,
    files: Seq<SlskdFile>,
    folder: Seq<char>,
    artist: Seq<char>,
    album: Seq<char>,
    expected_tracks: Option<usize>,
    preferred: Seq<String>,
) -> bool {
    let audio = audio_files(files);
    &&& parts.audio_files == audio.len()
    &&& parts.track_match == track_match_of(audio.len(), expected_tracks)
    &&& is_first_dominant(file_extensions(audio), opt_view(parts.dominant_format))
    &&& match parts.dominant_format {
        Some(d) => match first_index(views(preferred), d@) {
            Some(p) => parts.format_rank == Some(p as usize),
            None => parts.format_rank is None,
        },
        None => parts.format_rank is None,
    }
    &&& parts.folder_lower@ == lowercase(folder)
    &&& parts.target_lower@ == lowercase(artist + " - "@ + album)
    &&& parts.artist_in_folder == contains_seq(lowercase(folder), lowercase(artist))
}

/// The score parts from what was worked out for the folder: its number of audio
/// files, their dominant format, and the lower-cased folder name, target
/// "{artist} - {album}" and artist.
pub fn score_parts_from(
    audio_files: usize,
    dominant_format: Option<String>,
    expected_tracks: Option<usize>,
    preferred_formats: &Vec<String>,
    folder_lower: String,
    target_lower: String,
    artist_lower: &str,
) -> (p: ScoreParts)
    ensures
        p.audio_files == audio_files,
        p.track_match == track_match_of(audio_files as nat, expected_tracks),
        p.dominant_format == dominant_format,
        match dominant_format {
            Some(d) => match first_index(views(preferred_formats@), d@) {
                Some(i) => p.format_rank == Some(i as usize),
                None => p.format_rank is None,
            },
            None => p.format_rank is None,
        },
        p.folder_lower == folder_lower,
        p.target_lower == target_lower,
        p.artist_in_folder == contains_seq(folder_lower@, artist_lower@),
{
    let tm = track_match(audio_files, expected_tracks);
    let rank = match &dominant_format {
        Some(d) => format_position(preferred_formats, d),
        None => None,
    };
    let fl = chars_of(folder_lower.as_str());
    let al = chars_of(artist_lower);
    let artist_in_folder = contains_chars(&fl, &al);
    ScoreParts {
        audio_files,
        track_match: tm,
        dominant_format,
        format_rank: rank,
        folder_lower,
        target_lower,
        artist_in_folder,
    }
}

/// The integer and text parts of a candidate's score; `None` when the folder holds
/// no audio file (such a candidate scores zero).
pub fn score_parts(
    files: &Vec<SlskdFile>,
    folder: &str,
    artist: &str,
    album: &str,
    expected_tracks: Option<usize>,
    preferred_formats: &Vec<String>,
) -> (r: Option<ScoreParts>)
    ensures
        r is None <==> audio_files(files@).len() == 0,
        r matches Some(p) ==> score_parts_of(
            p,
            files@,
            folder@,
            artist@,
            album@,
            expected_tracks,
            preferred_formats@,
        ),
        r matches Some(p) ==> p.artist_in_folder == contains_seq(lowercase(folder@), lowercase(artist@)),
        r is Some && is_ascii_seq(folder@) ==> lowercase(folder@) == ascii_lower(folder@),
        r is Some && is_ascii_seq(artist@) ==> lowercase(artist@) == ascii_lower(artist@),
        r is Some && is_ascii_seq(artist@ + " - "@ + album@) ==> lowercase(artist@ + " - "@ + album@)
            == ascii_lower(artist@ + " - "@ + album@),
{
    let audio = select_audio(files);
    if audio.len() == 0 {
        return None;
    }
    let dominant = dominant_format(&audio);
    let folder_lower = to_lowercase(folder);
    let mut target = String::from_str(artist);
    target.append(" - ");
    target.append(album);
    let target_lower = to_lowercase(target.as_str());
    let artist_lower = to_lowercase(artist);
    Some(
        score_parts_from(
            audio.len(),
            dominant,
            expected_tracks,
            preferred_formats,
            folder_lower,
            target_lower,
            artist_lower.as_str(),
        ),
    )
}

// ---------------------------------------------------------------------------
// Candidates
// ---------------------------------------------------------------------------

/// One user's folder of files offered for a search, not yet scored.
#[derive(Debug)]
pub struct CandidateFolder {
    pub username: String,
    pub remote_folder: String,
    pub files: Vec<SlskdFile>,
}

/// A candidate download: one user's folder worth of files, with its score held
/// as the bit pattern of the score's IEEE 754 double.
#[derive(Debug)]
pub struct Candidate {
    pub username: String,
    pub remote_folder: String,
    pub files: Vec<SlskdFile>,
    pub score_bits: u64,
}

/// One offered file with the user offering it.
pub type Offer = (Seq<char>, SlskdFile);

/// What a candidate folder holds: its user, its folder, and its files in order.
pub struct FolderView {
    pub username: Seq<char>,
    pub folder: Seq<char>,
    pub files: Seq<SlskdFile>,
}

/// The contents of each candidate folder.
pub open spec fn folder_views(gs: Seq<CandidateFolder>) -> Seq<FolderView> {
    gs.map_values(
        |g: CandidateFolder| FolderView { username: g.username@, folder: g.remote_folder@, files: g.files@ },
    )
}

/// The files of one response, each with its user.
pub open spec fn response_offers(r: SearchResponse) -> Seq<Offer> {
    r.files@.map_values(|f: SlskdFile| (r.username@, f))
}

/// The files of all responses, each with its user, in response order.
pub open spec fn offers_of(rs: Seq<SearchResponse>) -> Seq<Offer>
    decreases rs.len(),
{
    if rs.len() == 0 {
        Seq::empty()
    } else {
        offers_of(rs.drop_last()) + response_offers(rs.last())
    }
}

/// Index of the first folder of user `u` named `k`, or -1.
pub open spec fn find_folder(gs: Seq<FolderView>, u: Seq<char>, k: Seq<char>) -> int
    decreases gs.len(),
{
    if gs.len() == 0 {
        -1
    } else if gs[0].username == u && gs[0].folder == k {
        0
    } else {
        let r = find_folder(gs.drop_first(), u, k);
        if r < 0 {
            -1
        } else {
            r + 1
        }
    }
}

/// An offered file added to the folders: to the folder of its user and path if
/// there is one, otherwise to a new folder at the end.
pub open spec fn add_offer(gs: Seq<FolderView>, o: Offer) -> Seq<FolderView> {
    let k = folder_of(o.1.filename@);
    let j = find_folder(gs, o.0, k);
    if j < 0 {
        gs.push(FolderView { username: o.0, folder: k, files: seq![o.1] })
    } else {
        gs.update(j, FolderView { username: gs[j].username, folder: gs[j].folder, files: gs[j].files.push(o.1) })
    }
}

/// The offered files grouped into one folder per user and folder path, folders in
/// the order in which they are first met, files in the order offered.
pub open spec fn group_offers(os: Seq<Offer>) -> Seq<FolderView>
    decreases os.len(),
{
    if os.len() == 0 {
        Seq::empty()
    } else {
        add_offer(group_offers(os.drop_last()), os.last())
    }
}

/// The candidate folders of a search: its offered files grouped by user and folder.
pub open spec fn grouping(rs: Seq<SearchResponse>) -> Seq<FolderView> {
    group_offers(offers_of(rs))
}

proof fn lemma_find_folder(gs: Seq<FolderView>, u: Seq<char>, k: Seq<char>, j: int)
    requires
        0 <= j <= gs.len(),
        forall|t: int| 0 <= t < j ==> !(gs[t].username == u && gs[t].folder == k),
    ensures
        j < gs.len() && gs[j].username == u && gs[j].folder == k ==> find_folder(gs, u, k) == j,
        j == gs.len() ==> find_folder(gs, u, k) == -1,
    decreases j,
{
    if j > 0 {
        lemma_find_folder(gs.drop_first(), u, k, j - 1);
    }
}

proof fn lemma_find_folder_result(gs: Seq<FolderView>, u: Seq<char>, k: Seq<char>)
    ensures
        -1 <= find_folder(gs, u, k) < gs.len(),
        find_folder(gs, u, k) >= 0 ==> gs[find_folder(gs, u, k)].username == u
            && gs[find_folder(gs, u, k)].folder == k,
        find_folder(gs, u, k) < 0 ==> forall|t: int|
            0 <= t < gs.len() ==> !(#[trigger] gs[t].username == u && gs[t].folder == k),
    decreases gs.len(),
{
    if gs.len() > 0 && !(gs[0].username == u && gs[0].folder == k) {
        lemma_find_folder_result(gs.drop_first(), u, k);
        assert forall|t: int| 0 < t < gs.len() implies gs[t] == gs.drop_first()[t - 1] by {}
    }
}

/// One user's folder worth of files for each user and folder among the responses,
/// in the order first met (see `grouping`); a response without files adds nothing.
pub fn group_responses(responses: Vec<SearchResponse>) -> (r: Vec<CandidateFolder>)
    ensures
        folder_views(r@) == grouping(responses@),
{
    let ghost orig = responses@;
    let mut rest = responses;
    let mut out: Vec<CandidateFolder> = Vec::new();
    let ghost mut i: int = 0;
    let ghost mut done: Seq<Offer> = Seq::empty();
    assert(folder_views(out@) =~= group_offers(done));
    while rest.len() > 0
        invariant
            0 <= i <= orig.len(),
            rest@ == orig.skip(i),
            done == offers_of(orig.take(i)),
            folder_views(out@) == group_offers(done),
        decreases rest.len(),
    {
        let resp = rest.remove(0);
        proof {
            assert(resp == orig[i]);
            assert(orig.take(i + 1).drop_last() =~= orig.take(i));
        }
        let SearchResponse { username, files } = resp;
        let ghost fs = files@;
        let ghost base = done;
        let ghost u = username@;
        let mut frest = files;
        let ghost mut m: int = 0;
        assert(base =~= base + fs.take(0).map_values(|f: SlskdFile| (u, f)));
        while frest.len() > 0
            invariant
                0 <= m <= fs.len(),
                frest@ == fs.skip(m),
                u == username@,
                done == base + fs.take(m).map_values(|f: SlskdFile| (u, f)),
                folder_views(out@) == group_offers(done),
            decreases frest.len(),
        {
            let f = frest.remove(0);
            let folder = extract_folder(f.filename.as_str());
            let ghost gs = folder_views(out@);
            let mut j: usize = 0;
            while j < out.len() && !(str_eq(out[j].username.as_str(), username.as_str()) && str_eq(
                out[j].remote_folder.as_str(),
                folder.as_str(),
            ))
                invariant
                    j <= out.len(),
                    gs == folder_views(out@),
                    u == username@,
                    forall|t: int| 0 <= t < j ==> !(gs[t].username == u && gs[t].folder == folder@),
                decreases out.len() - j,
            {
                assert(gs[j as int].username == out@[j as int].username@ && gs[j as int].folder
                    == out@[j as int].remote_folder@);
                j = j + 1;
            }
            proof {
                lemma_find_folder(gs, u, folder@, j as int);
                assert(f == fs[m]);
                assert(done.push((u, f)).drop_last() =~= done);
            }
            if j == out.len() {
                let mut v: Vec<SlskdFile> = Vec::new();
                v.push(f);
                out.push(CandidateFolder { username: username.clone(), remote_folder: folder, files: v });
                proof {
                    assert(folder_views(out@) =~= add_offer(gs, (u, f)));
                }
            } else {
                let mut g = out.remove(j);
                g.files.push(f);
                out.insert(j, g);
                proof {
                    assert(folder_views(out@) =~= add_offer(gs, (u, f)));
                }
            }
            proof {
                assert(fs.take(m + 1).map_values(|f: SlskdFile| (u, f)) =~= fs.take(m).map_values(
                    |f: SlskdFile| (u, f),
                ).push((u, f)));
                done = done.push((u, f));
                m = m + 1;
            }
        }
        proof {
            assert(fs.take(m) =~= fs);
            assert(response_offers(orig[i]) =~= fs.map_values(|f: SlskdFile| (u, f)));
            i = i + 1;
        }
    }
    assert(orig.take(i) =~= orig);
    out
}

/// Offers made by user `u` of files in folder `k`.
pub open spec fn offer_in(u: Seq<char>, k: Seq<char>) -> spec_fn(Offer) -> bool {
    |o: Offer| o.0 == u && folder_of(o.1.filename@) == k
}

/// The files of the offers, in order.
pub open spec fn offered_files(os: Seq<Offer>) -> Seq<SlskdFile> {
    os.map_values(|o: Offer| o.1)
}

/// `gs` splits the offers by user and folder: each folder holds exactly the
/// offers of its user in its folder, no two folders share a user and folder, and
/// every offer has its folder.
pub open spec fn splits_offers(gs: Seq<FolderView>, os: Seq<Offer>) -> bool {
    &&& forall|j: int|
        0 <= j < gs.len() ==> (#[trigger] gs[j]).files == offered_files(
            os.filter(offer_in(gs[j].username, gs[j].folder)),
        ) && gs[j].files.len() > 0
    &&& forall|a: int, b: int|
        0 <= a < b < gs.len() ==> !(#[trigger] gs[a].username == #[trigger] gs[b].username
            && gs[a].folder == gs[b].folder)
    &&& forall|t: int|
        0 <= t < os.len() ==> find_folder(gs, (#[trigger] os[t]).0, folder_of(os[t].1.filename@)) >= 0
}

proof fn lemma_offer_filter_push(os: Seq<Offer>, o: Offer, pred: spec_fn(Offer) -> bool)
    ensures
        os.push(o).filter(pred) == if pred(o) {
            os.filter(pred).push(o)
        } else {
            os.filter(pred)
        },
{
    reveal(Seq::filter);
    assert(os.push(o).drop_last() =~= os);
}

proof fn lemma_offer_filter_none(os: Seq<Offer>, pred: spec_fn(Offer) -> bool)
    requires
        forall|i: int| 0 <= i < os.len() ==> !pred(#[trigger] os[i]),
    ensures
        os.filter(pred) == Seq::<Offer>::empty(),
    decreases os.len(),
{
    reveal(Seq::filter);
    if os.len() > 0 {
        lemma_offer_filter_none(os.drop_last(), pred);
    }
}

proof fn lemma_find_folder_some(gs: Seq<FolderView>, u: Seq<char>, k: Seq<char>, r: int)
    requires
        0 <= r < gs.len(),
        gs[r].username == u,
        gs[r].folder == k,
    ensures
        find_folder(gs, u, k) >= 0,
{
    lemma_find_folder_result(gs, u, k);
}

proof fn lemma_group_offers_split(os: Seq<Offer>)
    ensures
        splits_offers(group_offers(os), os),
    decreases os.len(),
{
    if os.len() == 0 {
        return;
    }
    let p = os.drop_last();
    let o = os.last();
    lemma_group_offers_split(p);
    assert(p.push(o) =~= os);
    let gs = group_offers(p);
    let k = folder_of(o.1.filename@);
    let j = find_folder(gs, o.0, k);
    lemma_find_folder_result(gs, o.0, k);
    let g2 = group_offers(os);
    assert(g2 == add_offer(gs, o));
    if j < 0 {
        let nv = FolderView { username: o.0, folder: k, files: seq![o.1] };
        assert(g2 == gs.push(nv));
        assert forall|t: int| 0 <= t < gs.len() implies (#[trigger] g2[t]).files == offered_files(
            os.filter(offer_in(g2[t].username, g2[t].folder)),
        ) && g2[t].files.len() > 0 by {
            assert(g2[t] == gs[t]);
            lemma_offer_filter_push(p, o, offer_in(gs[t].username, gs[t].folder));
        }
        assert forall|i: int| 0 <= i < p.len() implies !offer_in(o.0, k)(#[trigger] p[i]) by {
            if offer_in(o.0, k)(p[i]) {
                assert(find_folder(gs, p[i].0, folder_of(p[i].1.filename@)) >= 0);
            }
        }
        lemma_offer_filter_none(p, offer_in(o.0, k));
        lemma_offer_filter_push(p, o, offer_in(o.0, k));
        assert(Seq::<Offer>::empty().push(o) =~= seq![o]);
        assert(offered_files(seq![o]) =~= seq![o.1]);
        assert(g2[gs.len() as int] == nv);
        assert forall|t: int| 0 <= t < os.len() implies find_folder(
            g2,
            (#[trigger] os[t]).0,
            folder_of(os[t].1.filename@),
        ) >= 0 by {
            if t < p.len() {
                assert(os[t] == p[t]);
                let r = find_folder(gs, p[t].0, folder_of(p[t].1.filename@));
                lemma_find_folder_result(gs, p[t].0, folder_of(p[t].1.filename@));
                assert(g2[r] == gs[r]);
                lemma_find_folder_some(g2, p[t].0, folder_of(p[t].1.filename@), r);
            } else {
                lemma_find_folder_some(g2, o.0, k, gs.len() as int);
            }
        }
        assert forall|a: int, b: int|
            0 <= a < b < g2.len() implies !(#[trigger] g2[a].username == #[trigger] g2[b].username
            && g2[a].folder == g2[b].folder) by {
            assert(g2[a] == gs[a]);
            if b < gs.len() {
                assert(g2[b] == gs[b]);
            }
        }
    } else {
        let nv = FolderView { username: gs[j].username, folder: gs[j].folder, files: gs[j].files.push(o.1) };
        assert(g2 == gs.update(j, nv));
        assert forall|t: int| 0 <= t < g2.len() implies (#[trigger] g2[t]).files == offered_files(
            os.filter(offer_in(g2[t].username, g2[t].folder)),
        ) && g2[t].files.len() > 0 by {
            if t == j {
                lemma_offer_filter_push(p, o, offer_in(gs[j].username, gs[j].folder));
                let f = p.filter(offer_in(gs[j].username, gs[j].folder));
                assert(offered_files(f.push(o)) =~= offered_files(f).push(o.1));
            } else {
                assert(g2[t] == gs[t]);
                lemma_offer_filter_push(p, o, offer_in(gs[t].username, gs[t].folder));
            }
        }
        assert forall|t: int| 0 <= t < os.len() implies find_folder(
            g2,
            (#[trigger] os[t]).0,
            folder_of(os[t].1.filename@),
        ) >= 0 by {
            if t < p.len() {
                assert(os[t] == p[t]);
                let r = find_folder(gs, p[t].0, folder_of(p[t].1.filename@));
                lemma_find_folder_result(gs, p[t].0, folder_of(p[t].1.filename@));
                lemma_find_folder_some(g2, p[t].0, folder_of(p[t].1.filename@), r);
            } else {
                lemma_find_folder_some(g2, o.0, k, j);
            }
        }
        assert forall|a: int, b: int|
            0 <= a < b < g2.len() implies !(#[trigger] g2[a].username == #[trigger] g2[b].username
            && g2[a].folder == g2[b].folder) by {
            assert(g2[a].username == gs[a].username && g2[a].folder == gs[a].folder);
            assert(g2[b].username == gs[b].username && g2[b].folder == gs[b].folder);
        }
    }
}

/// Each candidate folder is one user's one folder: it holds exactly the files that
/// user offered from that folder, in the order offered, and at least one; every
/// file's path lies in the candidate's folder; no two candidates share a user and
/// folder; and every offered file lands in the candidate of its user and folder.
pub proof fn law_candidates_are_single_user_folders(responses: Seq<SearchResponse>)
    ensures
        forall|j: int|
            0 <= j < grouping(responses).len() ==> (#[trigger] grouping(responses)[j]).files
                == offered_files(
                offers_of(responses).filter(
                    offer_in(grouping(responses)[j].username, grouping(responses)[j].folder),
                ),
            ) && grouping(responses)[j].files.len() > 0,
        forall|j: int, m: int|
            0 <= j < grouping(responses).len() && 0 <= m < grouping(responses)[j].files.len()
                ==> folder_of((#[trigger] grouping(responses)[j].files[m]).filename@)
                == grouping(responses)[j].folder,
        forall|a: int, b: int|
            0 <= a < b < grouping(responses).len() ==> !(#[trigger] grouping(responses)[a].username
                == #[trigger] grouping(responses)[b].username && grouping(responses)[a].folder
                == grouping(responses)[b].folder),
        forall|t: int|
            0 <= t < offers_of(responses).len() ==> {
                let o = #[trigger] offers_of(responses)[t];
                let j = find_folder(grouping(responses), o.0, folder_of(o.1.filename@));
                0 <= j < grouping(responses).len() && grouping(responses)[j].username == o.0
                    && grouping(responses)[j].folder == folder_of(o.1.filename@)
            },
{
    broadcast use vstd::seq_lib::group_filter_ensures;

    let os = offers_of(responses);
    let gs = grouping(responses);
    lemma_group_offers_split(os);
    assert forall|j: int, m: int|
        0 <= j < gs.len() && 0 <= m < gs[j].files.len() implies folder_of(
        (#[trigger] gs[j].files[m]).filename@,
    ) == gs[j].folder by {
        let f = os.filter(offer_in(gs[j].username, gs[j].folder));
        assert(gs[j].files == offered_files(f));
        assert(gs[j].files[m] == f[m].1);
        os.lemma_filter_pred(offer_in(gs[j].username, gs[j].folder), m);
    }
    assert forall|t: int| 0 <= t < os.len() implies {
        let o = #[trigger] os[t];
        let j = find_folder(gs, o.0, folder_of(o.1.filename@));
        0 <= j < gs.len() && gs[j].username == o.0 && gs[j].folder == folder_of(o.1.filename@)
    } by {
        lemma_find_folder_result(gs, os[t].0, folder_of(os[t].1.filename@));
    }
}

impl CandidateFolder {
    /// The candidate for this folder with the given score bits.
    pub fn with_score(self, score_bits: u64) -> (c: Candidate)
        ensures
            c.username == self.username,
            c.remote_folder == self.remote_folder,
            c.files == self.files,
            c.score_bits == score_bits,
    {
        Candidate {
            username: self.username,
            remote_folder: self.remote_folder,
            files: self.files,
            score_bits,
        }
    }
}

// ---------------------------------------------------------------------------
// Ranking
// ---------------------------------------------------------------------------

/// The sign bit of an IEEE 754 double.
pub const SIGN_BIT: u64 = 0x8000_0000_0000_0000;

/// The exponent bits of an IEEE 754 double.
pub const EXPONENT_BITS: u64 = 0x7FF0_0000_0000_0000;

/// The fraction bits of an IEEE 754 double.
pub const FRACTION_BITS: u64 = 0x000F_FFFF_FFFF_FFFF;

/// The bit pattern is a NaN, of either sign.
pub open spec fn is_nan_bits(bits: u64) -> bool {
    (bits & EXPONENT_BITS) == EXPONENT_BITS && (bits & FRACTION_BITS) != 0
}

/// Whether a double's bit pattern is a NaN (see `is_nan_bits`).
pub fn nan_bits(bits: u64) -> (r: bool)
    ensures
        r == is_nan_bits(bits),
{
    (bits & EXPONENT_BITS) == EXPONENT_BITS && (bits & FRACTION_BITS) != 0
}

/// An integer key that orders double bit patterns as the doubles they encode are
/// ordered (for values other than NaN): -0.0 gets the key of +0.0, other negative
/// values have all bits flipped, the others only the sign bit set.
pub open spec fn order_key(bits: u64) -> u64 {
    if bits == SIGN_BIT {
        SIGN_BIT
    } else if bits > SIGN_BIT {
        !bits
    } else {
        bits | SIGN_BIT
    }
}

/// The ordering key of a double's bit pattern (see `order_key`).
pub fn score_key(bits: u64) -> (r: u64)
    ensures
        r == order_key(bits),
{
    if bits == SIGN_BIT {
        SIGN_BIT
    } else if bits > SIGN_BIT {
        !bits
    } else {
        bits | SIGN_BIT
    }
}

/// A candidate's ordering key.
pub open spec fn key_of(c: Candidate) -> u64 {
    order_key(c.score_bits)
}

/// Candidates whose score is at least the minimum score: as with the doubles
/// themselves, nothing is at least a NaN and a NaN is at least nothing.
pub open spec fn above_minimum(min_score_bits: u64) -> spec_fn(Candidate) -> bool {
    |c: Candidate|
        !is_nan_bits(min_score_bits) && !is_nan_bits(c.score_bits) && key_of(c) >= order_key(
            min_score_bits,
        )
}

/// Where a candidate with key `k` goes in a best-first list: after every leading
/// candidate whose key is at least `k`.
pub open spec fn insert_pos(s: Seq<Candidate>, k: u64) -> int
    decreases s.len(),
{
    if s.len() == 0 {
        0
    } else if key_of(s[0]) < k {
        0
    } else {
        1 + insert_pos(s.drop_first(), k)
    }
}

/// `c` inserted into the best-first list `s`, after the candidates that score at
/// least as well.
pub open spec fn insert_desc(s: Seq<Candidate>, c: Candidate) -> Seq<Candidate> {
    s.insert(insert_pos(s, key_of(c)), c)
}

/// Stable best-first sort: each candidate in turn is inserted after those before
/// it that score at least as well.
pub open spec fn sort_desc(s: Seq<Candidate>) -> Seq<Candidate>
    decreases s.len(),
{
    if s.len() == 0 {
        s
    } else {
        insert_desc(sort_desc(s.drop_last()), s.last())
    }
}

/// The ranking: the candidates scoring at least the minimum, best first, ties in
/// the order in which they were given.
pub open spec fn ranking(candidates: Seq<Candidate>, min_score_bits: u64) -> Seq<Candidate> {
    sort_desc(candidates.filter(above_minimum(min_score_bits)))
}

/// Keys never increase along `s`.
pub open spec fn sorted_desc(s: Seq<Candidate>) -> bool {
    forall|i: int, j: int| 0 <= i < j < s.len() ==> key_of(#[trigger] s[i]) >= key_of(#[trigger] s[j])
}

proof fn lemma_insert_pos(s: Seq<Candidate>, k: u64)
    ensures
        0 <= insert_pos(s, k) <= s.len(),
        forall|j: int| 0 <= j < insert_pos(s, k) ==> key_of(#[trigger] s[j]) >= k,
        insert_pos(s, k) < s.len() ==> key_of(s[insert_pos(s, k)]) < k,
    decreases s.len(),
{
    if s.len() > 0 && key_of(s[0]) >= k {
        lemma_insert_pos(s.drop_first(), k);
        assert forall|j: int| 0 <= j < insert_pos(s, k) implies key_of(#[trigger] s[j]) >= k by {
            if j > 0 {
                assert(s[j] == s.drop_first()[j - 1]);
            }
        }
    }
}

proof fn lemma_insert_desc_sorted(s: Seq<Candidate>, c: Candidate)
    requires
        sorted_desc(s),
    ensures
        sorted_desc(insert_desc(s, c)),
{
    let p = insert_pos(s, key_of(c));
    lemma_insert_pos(s, key_of(c));
    s.insert_ensures(p, c);
    let t = insert_desc(s, c);
    assert forall|i: int, j: int| 0 <= i < j < t.len() implies key_of(#[trigger] t[i]) >= key_of(
        #[trigger] t[j],
    ) by {
        if j < p {
            assert(t[i] == s[i] && t[j] == s[j]);
        } else if j == p {
            assert(t[i] == s[i]);
        } else if i < p {
            assert(t[i] == s[i] && t[j] == s[j - 1]);
            assert(key_of(s[i]) >= key_of(c));
            assert(key_of(s[p]) < key_of(c));
            if p < j - 1 {
                assert(key_of(s[p]) >= key_of(s[j - 1]));
            }
        } else if i == p {
            assert(t[j] == s[j - 1]);
            if p < j - 1 {
                assert(key_of(s[p]) >= key_of(s[j - 1]));
            }
        } else {
            assert(t[i] == s[i - 1] && t[j] == s[j - 1]);
        }
    }
}

proof fn lemma_insert_desc_multiset(s: Seq<Candidate>, c: Candidate)
    ensures
        insert_desc(s, c).to_multiset() =~= s.to_multiset().insert(c),
{
    broadcast use vstd::seq_lib::group_to_multiset_ensures;

    let p = insert_pos(s, key_of(c));
    lemma_insert_pos(s, key_of(c));
    s.insert_ensures(p, c);
    let t = insert_desc(s, c);
    assert(t.remove(p) =~= s);
    assert(t.to_multiset().remove(t[p]) =~= s.to_multiset());
    assert(t.contains(c));
    assert(t.to_multiset().count(c) > 0);
}

proof fn lemma_sort_desc(s: Seq<Candidate>)
    ensures
        sorted_desc(sort_desc(s)),
        sort_desc(s).to_multiset() =~= s.to_multiset(),
    decreases s.len(),
{
    broadcast use vstd::seq_lib::group_to_multiset_ensures;

    if s.len() > 0 {
        lemma_sort_desc(s.drop_last());
        lemma_insert_desc_sorted(sort_desc(s.drop_last()), s.last());
        lemma_insert_desc_multiset(sort_desc(s.drop_last()), s.last());
        assert(s.drop_last().push(s.last()) =~= s);
    }
}

/// The candidates scoring at least the minimum score, best first; candidates with
/// equal scores keep their relative order.
pub fn rank_candidates(candidates: Vec<Candidate>, min_score_bits: u64) -> (r: Vec<Candidate>)
    ensures
        r@ == ranking(candidates@, min_score_bits),
{
    let ghost orig = candidates@;
    let min_key = score_key(min_score_bits);
    let min_nan = nan_bits(min_score_bits);
    let mut rest = candidates;
    let mut out: Vec<Candidate> = Vec::new();
    let ghost mut i: int = 0;
    while rest.len() > 0
        invariant
            0 <= i <= orig.len(),
            rest@ == orig.skip(i),
            min_key == order_key(min_score_bits),
            min_nan == is_nan_bits(min_score_bits),
            out@ == ranking(orig.take(i), min_score_bits),
        decreases rest.len(),
    {
        let c = rest.remove(0);
        let ghost prev = out@;
        proof {
            assert(c == orig[i]);
            assert(orig.take(i + 1).drop_last() =~= orig.take(i));
            reveal(Seq::filter);
        }
        let k = score_key(c.score_bits);
        if !min_nan && !nan_bits(c.score_bits) && k >= min_key {
            let mut pos: usize = 0;
            while pos < out.len() && score_key(out[pos].score_bits) >= k
                invariant
                    pos <= out.len(),
                    k == key_of(c),
                    forall|j: int| 0 <= j < pos ==> key_of(#[trigger] out@[j]) >= k,
                decreases out.len() - pos,
            {
                pos = pos + 1;
            }
            proof {
                lemma_insert_pos(prev, k);
                let p = insert_pos(prev, k);
                if (pos as int) < p {
                    assert(key_of(prev[pos as int]) >= k);
                } else if p < (pos as int) {
                    assert(key_of(prev[p]) >= k);
                }
                assert(pos == p);
            }
            out.insert(pos, c);
            proof {
                let f = orig.take(i).filter(above_minimum(min_score_bits));
                assert(orig.take(i + 1).filter(above_minimum(min_score_bits)) =~= f.push(c));
                assert(f.push(c).drop_last() =~= f);
            }
        } else {
            proof {
                assert(orig.take(i + 1).filter(above_minimum(min_score_bits)) =~= orig.take(
                    i,
                ).filter(above_minimum(min_score_bits)));
            }
        }
        proof {
            i = i + 1;
        }
    }
    assert(orig.take(i) =~= orig);
    out
}

/// The ranking is best first: scores never increase along it.
pub proof fn law_ranking_best_first(candidates: Seq<Candidate>, min_score_bits: u64)
    ensures
        sorted_desc(ranking(candidates, min_score_bits)),
{
    lemma_sort_desc(candidates.filter(above_minimum(min_score_bits)));
}

/// The ranking holds exactly the candidates that score at least the minimum, each
/// as often as it was offered: none is lost, none is added.
pub proof fn law_ranking_keeps_exactly_those_above_minimum(
    candidates: Seq<Candidate>,
    min_score_bits: u64,
)
    ensures
        ranking(candidates, min_score_bits).to_multiset() =~= candidates.filter(
            above_minimum(min_score_bits),
        ).to_multiset(),
        forall|i: int|
            0 <= i < ranking(candidates, min_score_bits).len() ==> above_minimum(min_score_bits)(
                #[trigger] ranking(candidates, min_score_bits)[i],
            ),
        is_nan_bits(min_score_bits) ==> ranking(candidates, min_score_bits).len() == 0,
{
    broadcast use vstd::seq_lib::group_to_multiset_ensures;

    let f = candidates.filter(above_minimum(min_score_bits));
    lemma_sort_desc(f);
    let r = ranking(candidates, min_score_bits);
    assert forall|i: int| 0 <= i < r.len() implies above_minimum(min_score_bits)(#[trigger] r[i]) by {
        assert(r.contains(r[i]));
        assert(r.to_multiset().count(r[i]) > 0);
        assert(f.contains(r[i]));
        let j = choose|j: int| 0 <= j < f.len() && f[j] == r[i];
        candidates.lemma_filter_pred(above_minimum(min_score_bits), j);
    }
}

/// Candidates with the given ordering key.
pub open spec fn has_key(k: u64) -> spec_fn(Candidate) -> bool {
    |c: Candidate| key_of(c) == k
}

proof fn lemma_filter_empty(s: Seq<Candidate>, pred: spec_fn(Candidate) -> bool)
    requires
        forall|i: int| 0 <= i < s.len() ==> !pred(#[trigger] s[i]),
    ensures
        s.filter(pred) == Seq::<Candidate>::empty(),
    decreases s.len(),
{
    reveal(Seq::filter);
    if s.len() > 0 {
        lemma_filter_empty(s.drop_last(), pred);
    }
}

proof fn lemma_insert_desc_stable(t: Seq<Candidate>, c: Candidate, k: u64)
    requires
        sorted_desc(t),
    ensures
        insert_desc(t, c).filter(has_key(k)) == if key_of(c) == k {
            t.filter(has_key(k)).push(c)
        } else {
            t.filter(has_key(k))
        },
{
    broadcast use vstd::seq::Seq::filter_distributes_over_add;

    let p = insert_pos(t, key_of(c));
    lemma_insert_pos(t, key_of(c));
    let a = t.take(p);
    let b = t.skip(p);
    assert(t =~= a + b);
    assert(insert_desc(t, c) =~= a + seq![c] + b);
    if key_of(c) == k {
        assert forall|i: int| 0 <= i < b.len() implies !has_key(k)(#[trigger] b[i]) by {
            assert(b[i] == t[p + i]);
            if i > 0 {
                assert(key_of(t[p]) >= key_of(t[p + i]));
            }
        }
        lemma_filter_empty(b, has_key(k));
    }
    reveal(Seq::filter);
    assert(seq![c].drop_last() =~= Seq::<Candidate>::empty());
    assert((a + seq![c] + b).filter(has_key(k)) == (a + seq![c]).filter(has_key(k)) + b.filter(has_key(k)));
    assert((a + seq![c]).filter(has_key(k)) == a.filter(has_key(k)) + seq![c].filter(has_key(k)));
    assert(t.filter(has_key(k)) == a.filter(has_key(k)) + b.filter(has_key(k)));
    if key_of(c) == k {
        assert(seq![c].filter(has_key(k)) =~= seq![c]);
        assert(b.filter(has_key(k)) =~= Seq::<Candidate>::empty());
        assert(a.filter(has_key(k)) + seq![c] + Seq::<Candidate>::empty() =~= (a.filter(has_key(k)) + b.filter(has_key(k))).push(c));
    } else {
        assert(!has_key(k)(c));
        assert(seq![c].drop_last().filter(has_key(k)) =~= Seq::<Candidate>::empty());
        assert(seq![c].filter(has_key(k)) =~= Seq::<Candidate>::empty());
        assert(a.filter(has_key(k)) + Seq::<Candidate>::empty() + b.filter(has_key(k)) =~= a.filter(has_key(k)) + b.filter(has_key(k)));
    }
}

proof fn lemma_sort_desc_stable(s: Seq<Candidate>, k: u64)
    ensures
        sort_desc(s).filter(has_key(k)) == s.filter(has_key(k)),
    decreases s.len(),
{
    reveal(Seq::filter);
    if s.len() > 0 {
        lemma_sort_desc_stable(s.drop_last(), k);
        lemma_sort_desc(s.drop_last());
        lemma_insert_desc_stable(sort_desc(s.drop_last()), s.last(), k);
    }
}

/// The ranking is stable: the candidates that share a score appear in it in the
/// order in which they were offered.
pub proof fn law_ranking_is_stable(candidates: Seq<Candidate>, min_score_bits: u64, k: u64)
    ensures
        ranking(candidates, min_score_bits).filter(has_key(k)) == candidates.filter(
            above_minimum(min_score_bits),
        ).filter(has_key(k)),
{
    lemma_sort_desc_stable(candidates.filter(above_minimum(min_score_bits)), k);
}

/// Candidates whose key is at least `k`.
pub open spec fn key_at_least(k: u64) -> spec_fn(Candidate) -> bool {
    |c: Candidate| key_of(c) >= k
}

proof fn lemma_filter_push<A>(s: Seq<A>, x: A, pred: spec_fn(A) -> bool)
    ensures
        s.push(x).filter(pred) == if pred(x) {
            s.filter(pred).push(x)
        } else {
            s.filter(pred)
        },
{
    reveal(Seq::filter);
    assert(s.push(x).drop_last() =~= s);
}

pub(crate) proof fn lemma_filter_keeps_all<A>(s: Seq<A>, pred: spec_fn(A) -> bool)
    requires
        forall|i: int| 0 <= i < s.len() ==> pred(#[trigger] s[i]),
    ensures
        s.filter(pred) == s,
    decreases s.len(),
{
    reveal(Seq::filter);
    if s.len() > 0 {
        lemma_filter_keeps_all(s.drop_last(), pred);
        assert(s.drop_last().push(s.last()) =~= s);
    }
}

proof fn lemma_filter_keeps_none<A>(s: Seq<A>, pred: spec_fn(A) -> bool)
    requires
        forall|i: int| 0 <= i < s.len() ==> !pred(#[trigger] s[i]),
    ensures
        s.filter(pred) == Seq::<A>::empty(),
    decreases s.len(),
{
    reveal(Seq::filter);
    if s.len() > 0 {
        lemma_filter_keeps_none(s.drop_last(), pred);
    }
}

proof fn lemma_filter_then_filter<A>(
    s: Seq<A>,
    p: spec_fn(A) -> bool,
    r: spec_fn(A) -> bool,
    q: spec_fn(A) -> bool,
)
    requires
        forall|x: A| #[trigger] q(x) == (p(x) && r(x)),
    ensures
        s.filter(q) == s.filter(p).filter(r),
    decreases s.len(),
{
    reveal(Seq::filter);
    if s.len() > 0 {
        let t = s.drop_last();
        let x = s.last();
        lemma_filter_then_filter(t, p, r, q);
        assert(t.push(x) =~= s);
        lemma_filter_push(t, x, q);
        lemma_filter_push(t, x, p);
        if p(x) {
            lemma_filter_push(t.filter(p), x, r);
        }
    }
}

proof fn lemma_insert_pos_unique(s: Seq<Candidate>, k: u64, q: int)
    requires
        0 <= q <= s.len(),
        forall|j: int| 0 <= j < q ==> key_of(#[trigger] s[j]) >= k,
        q < s.len() ==> key_of(s[q]) < k,
    ensures
        insert_pos(s, k) == q,
{
    lemma_insert_pos(s, k);
    let p = insert_pos(s, k);
    if p < q {
        assert(key_of(s[p]) >= k);
    } else if q < p {
        assert(key_of(s[q]) >= k);
    }
}

proof fn lemma_sorted_prefix(t: Seq<Candidate>, k: u64)
    requires
        sorted_desc(t),
    ensures
        t.filter(key_at_least(k)) == t.take(insert_pos(t, k)),
{
    broadcast use vstd::seq::Seq::filter_distributes_over_add;

    lemma_insert_pos(t, k);
    let m = insert_pos(t, k);
    let a = t.take(m);
    let b = t.skip(m);
    assert(t =~= a + b);
    assert forall|i: int| 0 <= i < a.len() implies key_at_least(k)(#[trigger] a[i]) by {
        assert(a[i] == t[i]);
    }
    assert forall|i: int| 0 <= i < b.len() implies !key_at_least(k)(#[trigger] b[i]) by {
        assert(b[i] == t[m + i]);
        if i > 0 {
            assert(key_of(t[m]) >= key_of(t[m + i]));
        }
    }
    lemma_filter_keeps_all(a, key_at_least(k));
    lemma_filter_keeps_none(b, key_at_least(k));
    assert((a + b).filter(key_at_least(k)) == a.filter(key_at_least(k)) + b.filter(key_at_least(k)));
    assert(a + Seq::<Candidate>::empty() =~= a);
}

proof fn lemma_insert_desc_cut(t: Seq<Candidate>, c: Candidate, k: u64)
    requires
        sorted_desc(t),
    ensures
        insert_desc(t, c).filter(key_at_least(k)) == if key_of(c) >= k {
            insert_desc(t.filter(key_at_least(k)), c)
        } else {
            t.filter(key_at_least(k))
        },
{
    let m = insert_pos(t, k);
    let p = insert_pos(t, key_of(c));
    lemma_insert_pos(t, k);
    lemma_insert_pos(t, key_of(c));
    lemma_insert_desc_sorted(t, c);
    lemma_sorted_prefix(t, k);
    let t2 = insert_desc(t, c);
    lemma_sorted_prefix(t2, k);
    t.insert_ensures(p, c);
    if key_of(c) >= k {
        if p > m {
            assert(key_of(t[m]) >= key_of(c));
        }
        assert forall|j: int| 0 <= j < m + 1 implies key_of(#[trigger] t2[j]) >= k by {
            if j < p {
                assert(t2[j] == t[j]);
            } else if j > p {
                assert(t2[j] == t[j - 1]);
            }
        }
        if m + 1 < t2.len() {
            assert(t2[m + 1] == t[m]);
        }
        lemma_insert_pos_unique(t2, k, m + 1);
        let tm = t.take(m);
        assert forall|j: int| 0 <= j < p implies key_of(#[trigger] tm[j]) >= key_of(c) by {
            assert(tm[j] == t[j]);
        }
        if p < m {
            assert(tm[p] == t[p]);
        }
        lemma_insert_pos_unique(tm, key_of(c), p);
        assert(t2.take(m + 1) =~= tm.insert(p, c));
    } else {
        if p < m {
            assert(key_of(t[p]) >= k);
        }
        assert forall|j: int| 0 <= j < m implies key_of(#[trigger] t2[j]) >= k by {
            assert(t2[j] == t[j]);
        }
        if m < p {
            assert(t2[m] == t[m]);
        } else {
            assert(t2[m] == c);
        }
        lemma_insert_pos_unique(t2, k, m);
        assert(t2.take(m) =~= t.take(m));
    }
}

proof fn lemma_sort_desc_cut(s: Seq<Candidate>, k: u64)
    ensures
        sort_desc(s).filter(key_at_least(k)) == sort_desc(s.filter(key_at_least(k))),
    decreases s.len(),
{
    reveal(Seq::filter);
    if s.len() > 0 {
        let q = s.drop_last();
        let c = s.last();
        lemma_sort_desc_cut(q, k);
        lemma_sort_desc(q);
        lemma_insert_desc_cut(sort_desc(q), c, k);
        if key_of(c) >= k {
            assert(q.filter(key_at_least(k)).push(c).drop_last() =~= q.filter(key_at_least(k)));
        }
    }
}

/// Raising the minimum score only cuts the tail of the ranking: the ranking at the
/// higher minimum is a prefix of the ranking at the lower one, and what is cut
/// scores below the higher minimum.
pub proof fn law_raising_minimum_cuts_the_tail(
    candidates: Seq<Candidate>,
    low_min_bits: u64,
    high_min_bits: u64,
)
    requires
        !is_nan_bits(low_min_bits),
        !is_nan_bits(high_min_bits),
        order_key(low_min_bits) <= order_key(high_min_bits),
    ensures
        ranking(candidates, high_min_bits).len() <= ranking(candidates, low_min_bits).len(),
        ranking(candidates, high_min_bits) == ranking(candidates, low_min_bits).take(
            ranking(candidates, high_min_bits).len() as int,
        ),
        forall|i: int|
            ranking(candidates, high_min_bits).len() <= i < ranking(candidates, low_min_bits).len()
                ==> key_of(#[trigger] ranking(candidates, low_min_bits)[i]) < order_key(high_min_bits),
{
    let k2 = order_key(high_min_bits);
    let f1 = candidates.filter(above_minimum(low_min_bits));
    let r1 = ranking(candidates, low_min_bits);
    lemma_filter_then_filter(
        candidates,
        above_minimum(low_min_bits),
        key_at_least(k2),
        above_minimum(high_min_bits),
    );
    lemma_sort_desc_cut(f1, k2);
    lemma_sort_desc(f1);
    lemma_sorted_prefix(r1, k2);
    lemma_insert_pos(r1, k2);
    let n = insert_pos(r1, k2);
    assert(ranking(candidates, high_min_bits) == r1.take(n));
    assert forall|i: int| n <= i < r1.len() implies key_of(#[trigger] r1[i]) < k2 by {
        if i > n {
            assert(key_of(r1[n]) >= key_of(r1[i]));
        }
    }
}

/// The artist bonus is decided by the artist's name alone: a folder gets it exactly
/// when the lower-cased artist name occurs in the lower-cased folder name, whatever
/// the album, the files, the expected track count or the preferred formats.
pub proof fn law_artist_bonus_depends_on_artist_and_folder_only(
    p1: ScoreParts,
    p2: ScoreParts,
    files1: Seq<SlskdFile>,
    files2: Seq<SlskdFile>,
    folder: Seq<char>,
    artist: Seq<char>,
    album1: Seq<char>,
    album2: Seq<char>,
    expected1: Option<usize>,
    expected2: Option<usize>,
    preferred1: Seq<String>,
    preferred2: Seq<String>,
)
    requires
        score_parts_of(p1, files1, folder, artist, album1, expected1, preferred1),
        score_parts_of(p2, files2, folder, artist, album2, expected2, preferred2),
    ensures
        p1.artist_in_folder == contains_seq(lowercase(folder), lowercase(artist)),
        p1.artist_in_folder == p2.artist_in_folder,
{
}

/// A file with an extension is audio exactly when its lower-cased extension is
/// one of flac, mp3, aac, ogg, opus, wav, m4a, wv and ape.
pub proof fn law_audio_extensions_are_the_nine(f: SlskdFile)
    requires
        f.extension is Some,
    ensures
        is_audio_file(f) <==> {
            let x = lowercase(f.extension->0@);
            ||| x == "flac"@
            ||| x == "mp3"@
            ||| x == "aac"@
            ||| x == "ogg"@
            ||| x == "opus"@
            ||| x == "wav"@
            ||| x == "m4a"@
            ||| x == "wv"@
            ||| x == "ape"@
        },
{
    let x = lowercase(f.extension->0@);
    let a = audio_extensions();
    if a.contains(x) {
        let i = choose|i: int| 0 <= i < a.len() && a[i] == x;
        assert(0 <= i < 9);
    }
    if x == "flac"@ { assert(a[0] == x); }
    if x == "mp3"@ { assert(a[1] == x); }
    if x == "aac"@ { assert(a[2] == x); }
    if x == "ogg"@ { assert(a[3] == x); }
    if x == "opus"@ { assert(a[4] == x); }
    if x == "wav"@ { assert(a[5] == x); }
    if x == "m4a"@ { assert(a[6] == x); }
    if x == "wv"@ { assert(a[7] == x); }
    if x == "ape"@ { assert(a[8] == x); }
}

/// A file without an extension is audio exactly when its lower-cased name ends
/// with one of flac, mp3, aac, ogg, opus, wav, m4a, wv and ape.
pub proof fn law_extensionless_audio_by_name(f: SlskdFile)
    requires
        f.extension is None,
    ensures
        is_audio_file(f) <==> {
            let n = lowercase(f.filename@);
            ||| ends_with_seq(n, "flac"@)
            ||| ends_with_seq(n, "mp3"@)
            ||| ends_with_seq(n, "aac"@)
            ||| ends_with_seq(n, "ogg"@)
            ||| ends_with_seq(n, "opus"@)
            ||| ends_with_seq(n, "wav"@)
            ||| ends_with_seq(n, "m4a"@)
            ||| ends_with_seq(n, "wv"@)
            ||| ends_with_seq(n, "ape"@)
        },
{
    let n = lowercase(f.filename@);
    let a = audio_extensions();
    if is_audio_file(f) {
        let i = choose|i: int| 0 <= i < a.len() && ends_with_seq(n, #[trigger] a[i]);
        assert(0 <= i < 9);
    }
    if ends_with_seq(n, "flac"@) { assert(ends_with_seq(n, a[0])); }
    if ends_with_seq(n, "mp3"@) { assert(ends_with_seq(n, a[1])); }
    if ends_with_seq(n, "aac"@) { assert(ends_with_seq(n, a[2])); }
    if ends_with_seq(n, "ogg"@) { assert(ends_with_seq(n, a[3])); }
    if ends_with_seq(n, "opus"@) { assert(ends_with_seq(n, a[4])); }
    if ends_with_seq(n, "wav"@) { assert(ends_with_seq(n, a[5])); }
    if ends_with_seq(n, "m4a"@) { assert(ends_with_seq(n, a[6])); }
    if ends_with_seq(n, "wv"@) { assert(ends_with_seq(n, a[7])); }
    if ends_with_seq(n, "ape"@) { assert(ends_with_seq(n, a[8])); }
}

/// The track-count classes by ratio of audio files `n` to the expected count `e`:
/// between 0.8 and 1.3 (inclusive) is close, from 0.6 below that or above 1.3 is
/// near, under 0.6 is far; without an expected count the class is unknown.
pub proof fn law_track_count_bands(n: nat, e: usize)
    ensures
        track_match_of(n, None) == TrackMatch::Unknown,
        10 * n >= 8 * e && 10 * n <= 13 * e ==> track_match_of(n, Some(e)) == TrackMatch::Close,
        (10 * n < 8 * e || 10 * n > 13 * e) && 10 * n >= 6 * e ==> track_match_of(n, Some(e))
            == TrackMatch::Near,
        10 * n < 6 * e ==> track_match_of(n, Some(e)) == TrackMatch::Far,
        n == e ==> track_match_of(n, Some(e)) == TrackMatch::Close,
{
}

} // verus!
