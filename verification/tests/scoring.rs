use kagurarr::scorer::{
    dominant_format, extract_folder, group_responses, is_audio, is_audio_lowered, most_frequent,
    rank_candidates, score_key, score_parts, score_parts_from, Candidate, TrackMatch, SIGN_BIT,
};
use kagurarr::slskd::{SearchResponse, SlskdFile};

fn file(name: &str, size: u64, ext: Option<&str>) -> SlskdFile {
    SlskdFile { filename: name.to_string(), size, extension: ext.map(|e| e.to_string()) }
}

fn cand(user: &str, score: f64) -> Candidate {
    Candidate {
        username: user.to_string(),
        remote_folder: format!("\\\\{user}\\Folder"),
        files: vec![file("a.flac", 1, Some("flac"))],
        score_bits: score.to_bits(),
    }
}

#[test]
fn extract_folder_takes_everything_before_the_last_backslash() {
    assert_eq!(
        extract_folder("\\\\server\\share\\Artist - Album\\01 - Track.flac"),
        "\\\\server\\share\\Artist - Album"
    );
}

#[test]
fn extract_folder_without_separator_keeps_the_name() {
    assert_eq!(extract_folder("track.flac"), "track.flac");
    assert_eq!(extract_folder(""), "");
}

#[test]
fn extract_folder_with_leading_backslash_only() {
    assert_eq!(extract_folder("\\track.flac"), "");
    assert_eq!(extract_folder("dir\\"), "dir");
}

#[test]
fn is_audio_by_extension_ignores_case() {
    assert!(is_audio(&file("x", 0, Some("FLAC"))));
    assert!(is_audio(&file("x", 0, Some("Mp3"))));
    assert!(!is_audio(&file("cover.jpg", 0, Some("jpg"))));
    assert!(!is_audio(&file("x.aiff", 0, Some("aiff"))));
}

#[test]
fn is_audio_without_extension_checks_the_name_end() {
    assert!(is_audio(&file("01 - Track.FLAC", 0, None)));
    assert!(is_audio(&file("song.opus", 0, None)));
    assert!(!is_audio(&file("folder.jpg", 0, None)));
    // the extension list is matched without a dot
    assert!(is_audio(&file("grape", 0, None)));
}

#[test]
fn dominant_format_picks_the_most_frequent_lowercased_extension() {
    let files = vec![
        file("a", 0, Some("MP3")),
        file("b", 0, Some("flac")),
        file("c", 0, Some("mp3")),
        file("d", 0, None),
    ];
    assert_eq!(dominant_format(&files), Some("mp3".to_string()));
}

#[test]
fn dominant_format_none_without_extensions() {
    let files = vec![file("a.flac", 0, None)];
    assert_eq!(dominant_format(&files), None);
    assert_eq!(dominant_format(&vec![]), None);
}

#[test]
fn dominant_format_tie_goes_to_the_first_met() {
    let files = vec![file("a", 0, Some("flac")), file("b", 0, Some("mp3"))];
    assert_eq!(dominant_format(&files), Some("flac".to_string()));
    let files = vec![file("a", 0, Some("OGG")), file("b", 0, Some("mp3")), file("c", 0, Some("mp3")), file("d", 0, Some("ogg"))];
    assert_eq!(dominant_format(&files), Some("ogg".to_string()));
}

#[test]
fn most_frequent_of_lowered_extensions() {
    let exts: Vec<String> = ["wav", "flac", "flac", "wav", "flac"].iter().map(|s| s.to_string()).collect();
    assert_eq!(most_frequent(&exts), Some("flac".to_string()));
    assert_eq!(most_frequent(&vec![]), None);
}

#[test]
fn is_audio_given_lowered_text() {
    assert!(is_audio_lowered(true, "ape"));
    assert!(!is_audio_lowered(true, "APE"));
    assert!(!is_audio_lowered(true, "x.flac"));
    assert!(is_audio_lowered(false, "x.flac"));
    assert!(!is_audio_lowered(false, "x.flac.txt"));
}

#[test]
fn score_parts_from_lowered_inputs() {
    let prefs = vec!["flac".to_string(), "mp3".to_string()];
    let p = score_parts_from(3, Some("mp3".into()), Some(10), &prefs, "a - b".into(), "a b".into(), "a");
    assert_eq!(p.audio_files, 3);
    assert_eq!(p.track_match, TrackMatch::Far);
    assert_eq!(p.format_rank, Some(1));
    assert!(p.artist_in_folder);
    let q = score_parts_from(1, None, None, &prefs, "x".into(), "a b".into(), "a");
    assert_eq!(q.format_rank, None);
    assert!(!q.artist_in_folder);
}

#[test]
fn score_parts_none_without_audio() {
    let files = vec![file("cover.jpg", 0, Some("jpg")), file("notes.txt", 0, Some("txt"))];
    let prefs = vec!["flac".to_string()];
    assert!(score_parts(&files, "Artist - Album", "Artist", "Album", None, &prefs).is_none());
}

#[test]
fn score_parts_counts_only_audio_and_ranks_the_format() {
    let files = vec![
        file("01.flac", 10, Some("flac")),
        file("02.flac", 10, Some("FLAC")),
        file("cover.jpg", 1, Some("jpg")),
    ];
    let prefs = vec!["mp3".to_string(), "flac".to_string()];
    let p = score_parts(&files, "Some ARTIST - Album", "Artist", "Album", Some(2), &prefs).unwrap();
    assert_eq!(p.audio_files, 2);
    assert_eq!(p.track_match, TrackMatch::Close);
    assert_eq!(p.dominant_format, Some("flac".to_string()));
    assert_eq!(p.format_rank, Some(1));
    assert_eq!(p.folder_lower, "some artist - album");
    assert_eq!(p.target_lower, "artist - album");
    assert!(p.artist_in_folder);
}

#[test]
fn score_parts_artist_absent_and_unknown_format() {
    let files = vec![file("01.ogg", 10, Some("ogg"))];
    let prefs = vec!["flac".to_string()];
    let p = score_parts(&files, "Other", "Artist", "Album", None, &prefs).unwrap();
    assert_eq!(p.track_match, TrackMatch::Unknown);
    assert_eq!(p.format_rank, None);
    assert!(!p.artist_in_folder);
}

#[test]
fn track_match_bounds_are_exact() {
    let prefs: Vec<String> = vec![];
    let tm = |n: usize, e: usize| {
        let files: Vec<SlskdFile> = (0..n).map(|i| file(&format!("{i}.mp3"), 0, Some("mp3"))).collect();
        score_parts(&files, "f", "a", "b", Some(e), &prefs).unwrap().track_match
    };
    assert_eq!(tm(8, 10), TrackMatch::Close); // 0.8
    assert_eq!(tm(13, 10), TrackMatch::Close); // 1.3
    assert_eq!(tm(14, 10), TrackMatch::Near); // 1.4
    assert_eq!(tm(7, 10), TrackMatch::Near); // 0.7
    assert_eq!(tm(6, 10), TrackMatch::Near); // 0.6
    assert_eq!(tm(5, 10), TrackMatch::Far); // 0.5
    assert_eq!(tm(3, 0), TrackMatch::Near); // expected zero: ratio is infinite
}

#[test]
fn group_responses_makes_one_candidate_per_user_and_folder() {
    let responses = vec![
        SearchResponse { username: "empty".into(), files: vec![] },
        SearchResponse {
            username: "soliva".into(),
            files: vec![
                file("\\music\\Artist - Album\\01.flac", 5, Some("flac")),
                file("\\music\\Other\\02.flac", 5, Some("flac")),
                file("\\music\\Artist - Album\\03.flac", 5, Some("flac")),
            ],
        },
        SearchResponse {
            username: "jaska".into(),
            files: vec![file("\\music\\Artist - Album\\01.mp3", 3, Some("mp3"))],
        },
        SearchResponse {
            username: "soliva".into(),
            files: vec![file("\\music\\Other\\04.flac", 5, Some("flac"))],
        },
    ];
    let groups = group_responses(responses);
    let shape: Vec<(String, String, Vec<String>)> = groups
        .iter()
        .map(|g| (g.username.clone(), g.remote_folder.clone(), g.files.iter().map(|f| f.filename.clone()).collect()))
        .collect();
    assert_eq!(
        shape,
        vec![
            (
                "soliva".to_string(),
                "\\music\\Artist - Album".to_string(),
                vec!["\\music\\Artist - Album\\01.flac".to_string(), "\\music\\Artist - Album\\03.flac".to_string()],
            ),
            (
                "soliva".to_string(),
                "\\music\\Other".to_string(),
                vec!["\\music\\Other\\02.flac".to_string(), "\\music\\Other\\04.flac".to_string()],
            ),
            (
                "jaska".to_string(),
                "\\music\\Artist - Album".to_string(),
                vec!["\\music\\Artist - Album\\01.mp3".to_string()],
            ),
        ]
    );
}

#[test]
fn group_responses_of_nothing() {
    assert!(group_responses(vec![]).is_empty());
    assert!(group_responses(vec![SearchResponse { username: "u".into(), files: vec![] }]).is_empty());
}

#[test]
fn score_key_orders_as_doubles() {
    let vals = [-2.5f64, -0.1, 0.0, 0.1, 0.75, 1.0, 3.0];
    for w in vals.windows(2) {
        assert!(score_key(w[0].to_bits()) < score_key(w[1].to_bits()));
    }
    assert_eq!(score_key(0.0f64.to_bits()), SIGN_BIT);
}

#[test]
fn rank_candidates_filters_by_minimum_and_sorts_best_first() {
    let cs = vec![cand("a", 0.5), cand("b", 0.9), cand("c", 0.75), cand("d", 0.8)];
    let ranked = rank_candidates(cs, 0.75f64.to_bits());
    let users: Vec<&str> = ranked.iter().map(|c| c.username.as_str()).collect();
    assert_eq!(users, vec!["b", "d", "c"]);
}

#[test]
fn rank_candidates_keeps_ties_in_order() {
    let cs = vec![cand("a", 0.8), cand("b", 0.9), cand("c", 0.8), cand("d", 0.9)];
    let ranked = rank_candidates(cs, 0.0f64.to_bits());
    let users: Vec<&str> = ranked.iter().map(|c| c.username.as_str()).collect();
    assert_eq!(users, vec!["b", "d", "a", "c"]);
}

#[test]
fn rank_candidates_empty_and_all_below() {
    assert!(rank_candidates(vec![], 0.5f64.to_bits()).is_empty());
    assert!(rank_candidates(vec![cand("a", 0.1)], 0.5f64.to_bits()).is_empty());
}

#[test]
fn rank_candidates_with_nan_minimum_keeps_nothing() {
    let cs = || vec![cand("a", 0.5), cand("b", 0.9)];
    assert!(rank_candidates(cs(), f64::NAN.to_bits()).is_empty());
    assert!(rank_candidates(cs(), (-f64::NAN).to_bits()).is_empty());
}

#[test]
fn rank_candidates_drops_nan_scores() {
    let cs = vec![cand("a", f64::NAN), cand("b", 0.9), cand("c", -f64::NAN)];
    let ranked = rank_candidates(cs, (-1.0f64).to_bits());
    let users: Vec<&str> = ranked.iter().map(|c| c.username.as_str()).collect();
    assert_eq!(users, vec!["b"]);
}

#[test]
fn signed_zeros_compare_equal() {
    assert_eq!(score_key((-0.0f64).to_bits()), score_key(0.0f64.to_bits()));
    let kept = rank_candidates(vec![cand("a", -0.0), cand("b", 0.0)], 0.0f64.to_bits());
    assert_eq!(kept.len(), 2);
    assert_eq!(kept[0].username, "a");
    assert_eq!(rank_candidates(vec![cand("a", 0.0)], (-0.0f64).to_bits()).len(), 1);
}

#[test]
fn raising_the_minimum_cuts_the_tail() {
    let cs = || vec![cand("a", 0.5), cand("b", 0.9), cand("c", 0.75), cand("d", 0.8), cand("e", 0.8)];
    let lo: Vec<String> = rank_candidates(cs(), 0.6f64.to_bits()).iter().map(|c| c.username.clone()).collect();
    let hi: Vec<String> = rank_candidates(cs(), 0.8f64.to_bits()).iter().map(|c| c.username.clone()).collect();
    assert_eq!(lo, vec!["b", "d", "e", "c"]);
    assert_eq!(hi, lo[..hi.len()].to_vec());
    assert_eq!(hi, vec!["b", "d", "e"]);
}
