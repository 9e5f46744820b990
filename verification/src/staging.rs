//! Paths for handing a finished download to Lidarr: the staged folder name
//! "Artist - Album (Year)", the path Lidarr sees, and which files get tagged.

use vstd::prelude::*;
use crate::text::{
    ascii_lower, is_ascii_seq,
    chars_eq, chars_of, find_seq, lowercase, occurs_at, contains_seq, push_char, string_from_chars,
    to_lowercase, trim_trailing, trim_trailing_chars,
};

verus! {

/// The decimal digit for `d` (taken modulo 10).
pub open spec fn digit_char(d: nat) -> char {
    let d = d % 10;
    if d == 0 { '0' } else if d == 1 { '1' } else if d == 2 { '2' } else if d == 3 { '3' }
    else if d == 4 { '4' } else if d == 5 { '5' } else if d == 6 { '6' } else if d == 7 { '7' }
    else if d == 8 { '8' } else { '9' }
}

/// The decimal representation of `n`, without leading zeros.
pub open spec fn decimal(n: nat) -> Seq<char>
    decreases n,
{
    if n < 10 {
        seq![digit_char(n)]
    } else {
        decimal(n / 10).push(digit_char(n % 10))
    }
}

fn digit(d: u32) -> (c: char)
    requires
        d < 10,
    ensures
        c == digit_char(d as nat),
{
    match d {
        0 => '0',
        1 => '1',
        2 => '2',
        3 => '3',
        4 => '4',
        5 => '5',
        6 => '6',
        7 => '7',
        8 => '8',
        _ => '9',
    }
}

/// Appends the decimal representation of `n`.
pub fn push_decimal(s: &mut String, n: u32)
    ensures
        final(s)@ == old(s)@ + decimal(n as nat),
    decreases n,
{
    if n >= 10 {
        push_decimal(s, n / 10);
    }
    push_char(s, digit(n % 10));
    assert(digit_char((n % 10) as nat) == digit_char(n as nat % 10));
}

/// The folder name "{artist} - {album} ({year})", or "{artist} - {album}" without a year.
pub open spec fn folder_name_of(artist: Seq<char>, album: Seq<char>, year: Option<u32>) -> Seq<char> {
    match year {
        Some(y) => artist + " - "@ + album + " ("@ + decimal(y as nat) + ")"@,
        None => artist + " - "@ + album,
    }
}

/// The standard folder name for an album.
pub fn folder_name(artist: &str, album: &str, year: Option<u32>) -> (r: String)
    ensures
        r@ == folder_name_of(artist@, album@, year),
{
    let mut s = String::from_str(artist);
    s.append(" - ");
    s.append(album);
    match year {
        Some(y) => {
            s.append(" (");
            push_decimal(&mut s, y);
            s.append(")");
        },
        None => {},
    }
    s
}

/// A character that cannot stand in a folder name is replaced by an underscore.
pub open spec fn sanitize_char(c: char) -> char {
    if c == '/' || c == '\\' || c == ':' || c == '*' || c == '?' || c == '"' || c == '<' || c == '>'
        || c == '|' {
        '_'
    } else {
        c
    }
}

/// The name with each of `/ \ : * ? " < > |` replaced by an underscore.
pub open spec fn sanitized(name: Seq<char>) -> Seq<char> {
    name.map_values(|c: char| sanitize_char(c))
}

/// Replaces the characters that cannot stand in a folder name (see `sanitized`).
pub fn sanitize_folder_name(name: &str) -> (r: String)
    ensures
        r@ == sanitized(name@),
{
    let v = chars_of(name);
    let mut out: Vec<char> = Vec::new();
    let mut i: usize = 0;
    while i < v.len()
        invariant
            i <= v.len(),
            out@ == sanitized(v@.take(i as int)),
        decreases v.len() - i,
    {
        let c = v[i];
        let d = if c == '/' || c == '\\' || c == ':' || c == '*' || c == '?' || c == '"' || c == '<'
            || c == '>' || c == '|' {
            '_'
        } else {
            c
        };
        out.push(d);
        assert(sanitized(v@.take(i + 1)) =~= sanitized(v@.take(i as int)).push(d));
        i = i + 1;
    }
    assert(v@.take(v.len() as int) =~= v@);
    string_from_chars(&out)
}

/// The staging folder: the download directory without trailing slashes, a slash,
/// and the sanitized standard folder name.
pub open spec fn staging_path_of(
    download_dir: Seq<char>,
    artist: Seq<char>,
    album: Seq<char>,
    year: Option<u32>,
) -> Seq<char> {
    trim_trailing(download_dir, '/') + "/"@ + sanitized(folder_name_of(artist, album, year))
}

/// Where a finished download is moved before import, and whether it has to move.
#[derive(Debug)]
pub struct StagePlan {
    pub staging_path: String,
    /// The download is not already at the staging path.
    pub rename: bool,
}

/// The staging plan for a download now at `current_path`.
pub fn plan_stage(
    download_dir: &str,
    current_path: &str,
    artist: &str,
    album: &str,
    year: Option<u32>,
) -> (r: StagePlan)
    ensures
        r.staging_path@ == staging_path_of(download_dir@, artist@, album@, year),
        r.rename == (current_path@ != r.staging_path@),
{
    let dir = chars_of(download_dir);
    let trimmed = trim_trailing_chars(&dir, '/');
    let mut path = string_from_chars(&trimmed);
    path.append("/");
    let name = folder_name(artist, album, year);
    let clean = sanitize_folder_name(name.as_str());
    path.append(clean.as_str());
    let cv = chars_of(current_path);
    let pv = chars_of(path.as_str());
    let same = chars_eq(&cv, &pv);
    StagePlan { staging_path: path, rename: !same }
}

/// The first index at which `p` occurs in `s` (meaningful when it occurs).
pub open spec fn first_occurrence(s: Seq<char>, p: Seq<char>) -> int {
    choose|i: int| occurs_at(s, p, i) && forall|j: int| 0 <= j < i ==> !occurs_at(s, p, j)
}

/// `s` with the first occurrence of `p` replaced by `r`; `s` itself when `p` does
/// not occur.
pub open spec fn replace_first(s: Seq<char>, p: Seq<char>, r: Seq<char>) -> Seq<char> {
    if contains_seq(s, p) {
        let i = first_occurrence(s, p);
        s.take(i) + r + s.skip(i + p.len())
    } else {
        s
    }
}

/// The path Lidarr should import from: when Lidarr has its own view of the download
/// directory, the first occurrence of slskd's directory in the staged path is
/// replaced by Lidarr's; otherwise the staged path as it is.
pub fn lidarr_import_path(staged_path: &str, slskd_dir: &str, lidarr_dir: Option<&str>) -> (r: String)
    ensures
        lidarr_dir is None ==> r@ == staged_path@,
        lidarr_dir matches Some(d) ==> r@ == replace_first(staged_path@, slskd_dir@, d@),
{
    match lidarr_dir {
        None => String::from_str(staged_path),
        Some(d) => {
            let s = chars_of(staged_path);
            let p = chars_of(slskd_dir);
            match find_seq(&s, &p) {
                None => String::from_str(staged_path),
                Some(i) => {
                    proof {
                        let f = first_occurrence(s@, p@);
                        assert(occurs_at(s@, p@, i as int));
                        if f < i {
                            assert(!occurs_at(s@, p@, f));
                        } else if f > i {
                            assert(!occurs_at(s@, p@, i as int));
                        }
                    }
                    let mut out: Vec<char> = Vec::new();
                    let mut k: usize = 0;
                    while k < i
                        invariant
                            i + p.len() <= s.len(),
                            k <= i,
                            out@ == s@.take(k as int),
                        decreases i - k,
                    {
                        out.push(s[k]);
                        assert(s@.take(k + 1) =~= s@.take(k as int).push(s@[k as int]));
                        k = k + 1;
                    }
                    let mut res = string_from_chars(&out);
                    res.append(d);
                    let mut tail: Vec<char> = Vec::new();
                    let mut j: usize = i + p.len();
                    while j < s.len()
                        invariant
                            i + p.len() <= j <= s.len(),
                            tail@ == s@.subrange(i + p.len(), j as int),
                        decreases s.len() - j,
                    {
                        tail.push(s[j]);
                        assert(s@.subrange(i + p.len(), j + 1) =~= s@.subrange(
                            i + p.len(),
                            j as int,
                        ).push(s@[j as int]));
                        j = j + 1;
                    }
                    let t = string_from_chars(&tail);
                    res.append(t.as_str());
                    res
                },
            }
        },
    }
}

/// The extensions of the files that are tagged before import, lower case.
pub open spec fn tag_extensions() -> Seq<Seq<char>> {
    seq!["flac"@, "mp3"@, "ogg"@, "opus"@, "m4a"@, "aac"@, "wav"@, "wv"@, "ape"@, "aiff"@]
}

fn tag_extension(i: usize) -> (r: &'static str)
    requires
        i < 10,
    ensures
        r@ == tag_extensions()[i as int],
{
    match i {
        0 => "flac",
        1 => "mp3",
        2 => "ogg",
        3 => "opus",
        4 => "m4a",
        5 => "aac",
        6 => "wav",
        7 => "wv",
        8 => "ape",
        _ => "aiff",
    }
}

/// Whether a lower-cased extension is one of the tagged audio extensions.
pub fn is_tag_extension(lowered: &str) -> (r: bool)
    ensures
        r == tag_extensions().contains(lowered@),
{
    let lv = chars_of(lowered);
    let mut i: usize = 0;
    while i < 10
        invariant
            i <= 10,
            lv@ == lowered@,
            tag_extensions().len() == 10,
            forall|j: int| 0 <= j < i ==> tag_extensions()[j] != lv@,
        decreases 10 - i,
    {
        let cand = chars_of(tag_extension(i));
        if chars_eq(&lv, &cand) {
            assert(tag_extensions()[i as int] == lv@);
            return true;
        }
        i = i + 1;
    }
    false
}

/// Whether a file with this extension gets its album tags stamped: the extension,
/// lower-cased, is one of the tagged audio extensions.
pub fn is_tag_target(extension: &str) -> (r: bool)
    ensures
        r == tag_extensions().contains(lowercase(extension@)),
        is_ascii_seq(extension@) ==> lowercase(extension@) == ascii_lower(extension@),
{
    let lower = to_lowercase(extension);
    is_tag_extension(lower.as_str())
}

/// A staged folder name holds none of `/ \\ : * ? " < > |`, and keeps its length.
pub proof fn law_sanitized_name_is_a_single_safe_component(name: Seq<char>)
    ensures
        sanitized(name).len() == name.len(),
        forall|i: int|
            0 <= i < sanitized(name).len() ==> {
                let c = #[trigger] sanitized(name)[i];
                c != '/' && c != '\\' && c != ':' && c != '*' && c != '?' && c != '"' && c != '<'
                    && c != '>' && c != '|'
            },
{
}

/// The files tagged before import are exactly those whose lower-cased extension is
/// one of flac, mp3, ogg, opus, m4a, aac, wav, wv, ape and aiff.
pub proof fn law_tag_targets_are_the_ten(extension: Seq<char>)
    ensures
        tag_extensions().contains(lowercase(extension)) <==> {
            let x = lowercase(extension);
            ||| x == "flac"@
            ||| x == "mp3"@
            ||| x == "ogg"@
            ||| x == "opus"@
            ||| x == "m4a"@
            ||| x == "aac"@
            ||| x == "wav"@
            ||| x == "wv"@
            ||| x == "ape"@
            ||| x == "aiff"@
        },
{
    let x = lowercase(extension);
    let a = tag_extensions();
    if a.contains(x) {
        let i = choose|i: int| 0 <= i < a.len() && a[i] == x;
        assert(0 <= i < 10);
    }
    if x == "flac"@ { assert(a[0] == x); }
    if x == "mp3"@ { assert(a[1] == x); }
    if x == "ogg"@ { assert(a[2] == x); }
    if x == "opus"@ { assert(a[3] == x); }
    if x == "m4a"@ { assert(a[4] == x); }
    if x == "aac"@ { assert(a[5] == x); }
    if x == "wav"@ { assert(a[6] == x); }
    if x == "wv"@ { assert(a[7] == x); }
    if x == "ape"@ { assert(a[8] == x); }
    if x == "aiff"@ { assert(a[9] == x); }
}

} // verus!
