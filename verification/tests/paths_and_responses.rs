use kagurarr::config::{
    default_blacklist_ttl_days, default_db_path, default_formats, default_interval, default_max_albums,
    default_stall_timeout,
};
use kagurarr::lidarr::{classify_command, classify_finished, endpoint_url, trim_base_url, ImportResult};
use kagurarr::slskd::{download_request, keep_polling_search, DownloadError, SlskdFile, SEARCH_POLL_LIMIT};
use kagurarr::staging::{
    folder_name, is_tag_extension, is_tag_target, lidarr_import_path, plan_stage, sanitize_folder_name,
};

#[test]
fn defaults() {
    assert_eq!(default_interval(), 600);
    assert_eq!(default_formats(), vec!["flac".to_string(), "mp3".to_string()]);
    assert_eq!(default_max_albums(), 10);
    assert_eq!(default_blacklist_ttl_days(), 30);
    assert_eq!(default_stall_timeout(), 300);
    assert_eq!(default_db_path(), "/data/kagurarr.db");
}

#[test]
fn base_url_loses_trailing_slashes() {
    assert_eq!(trim_base_url("http://lidarr:8686///"), "http://lidarr:8686");
    assert_eq!(trim_base_url("http://lidarr:8686"), "http://lidarr:8686");
    assert_eq!(trim_base_url("///"), "");
    assert_eq!(endpoint_url("http://slskd:5030", "/api/v0/searches"), "http://slskd:5030/api/v0/searches");
}

#[test]
fn command_still_running() {
    assert!(classify_command("started", Some("Processing".into())).is_none());
    assert!(classify_command("queued", None).is_none());
}

#[test]
fn command_completed_with_plain_message_is_accepted() {
    assert!(matches!(classify_command("completed", Some("Completed".into())), Some(ImportResult::Accepted)));
}

#[test]
fn command_completed_with_failure_words_is_rejected() {
    match classify_command("completed", Some("Import FAILED, path does not exist".into())) {
        Some(ImportResult::Rejected(m)) => assert_eq!(m, "Import FAILED, path does not exist"),
        _ => panic!("expected rejection"),
    }
    assert!(matches!(
        classify_command("completed", Some("Unable to match".into())),
        Some(ImportResult::Rejected(_))
    ));
}

#[test]
fn command_finished_without_message_is_rejected() {
    match classify_command("failed", None) {
        Some(ImportResult::Rejected(m)) => assert_eq!(m, ""),
        _ => panic!("expected rejection"),
    }
    assert!(matches!(classify_command("completed", Some(String::new())), Some(ImportResult::Rejected(_))));
}

#[test]
fn search_polling_stops_when_complete_or_after_the_limit() {
    assert!(keep_polling_search(1, false));
    assert!(!keep_polling_search(1, true));
    assert!(keep_polling_search(SEARCH_POLL_LIMIT - 1, false));
    assert!(!keep_polling_search(SEARCH_POLL_LIMIT, false));
    assert_eq!(SEARCH_POLL_LIMIT, 30);
}

#[test]
fn download_request_refuses_no_files() {
    let e = download_request("u", &vec![]).unwrap_err();
    assert_eq!(e, DownloadError::NoFiles);
    assert_eq!(e.message(), "no files to download");
}

#[test]
fn download_request_lists_names_and_sizes() {
    let files = vec![
        SlskdFile { filename: "\\a\\1.flac".into(), size: 10, extension: Some("flac".into()) },
        SlskdFile { filename: "\\a\\2.flac".into(), size: 20, extension: None },
    ];
    let r = download_request("soliva", &files).unwrap();
    assert_eq!(r.username, "soliva");
    assert_eq!(r.files.len(), 2);
    assert_eq!(r.files[1].filename, "\\a\\2.flac");
    assert_eq!(r.files[1].size, 20);
}

#[test]
fn folder_name_with_and_without_year() {
    assert_eq!(folder_name("Artist", "Album", Some(2024)), "Artist - Album (2024)");
    assert_eq!(folder_name("Artist", "Album", Some(0)), "Artist - Album (0)");
    assert_eq!(folder_name("Artist", "Album", Some(u32::MAX)), "Artist - Album (4294967295)");
    assert_eq!(folder_name("Artist", "Album", None), "Artist - Album");
}

#[test]
fn sanitize_replaces_forbidden_characters() {
    assert_eq!(sanitize_folder_name("AC/DC: Live? <\"x\"> | *\\"), "AC_DC_ Live_ __x__ _ __");
    assert_eq!(sanitize_folder_name("ëlan"), "ëlan");
}

#[test]
fn staging_plan() {
    let p = plan_stage("/downloads//", "/downloads/user folder", "AC/DC", "Back in Black", Some(1980));
    assert_eq!(p.staging_path, "/downloads/AC_DC - Back in Black (1980)");
    assert!(p.rename);
    let q = plan_stage("/downloads", "/downloads/A - B", "A", "B", None);
    assert_eq!(q.staging_path, "/downloads/A - B");
    assert!(!q.rename);
}

#[test]
fn lidarr_path_swaps_the_first_prefix() {
    assert_eq!(lidarr_import_path("/downloads/A - B", "/downloads", None), "/downloads/A - B");
    assert_eq!(lidarr_import_path("/downloads/A - B", "/downloads", Some("/data/dl")), "/data/dl/A - B");
    assert_eq!(lidarr_import_path("/x/downloads/downloads", "downloads", Some("d")), "/x/d/downloads");
    assert_eq!(lidarr_import_path("/other/A", "/downloads", Some("/data")), "/other/A");
    assert_eq!(lidarr_import_path("abc", "", Some("X")), "Xabc");
}

#[test]
fn tag_targets() {
    assert!(is_tag_target("FLAC"));
    assert!(is_tag_target("aiff"));
    assert!(!is_tag_target("jpg"));
    assert!(!is_tag_target(""));
}

#[test]
fn classify_finished_uses_the_lowered_message() {
    assert!(matches!(classify_finished("Done".into(), "done"), ImportResult::Accepted));
    match classify_finished("X".into(), "unable to import") {
        ImportResult::Rejected(m) => assert_eq!(m, "X"),
        _ => panic!("expected rejection"),
    }
    assert!(matches!(classify_finished(String::new(), ""), ImportResult::Rejected(_)));
}

#[test]
fn tag_extension_given_lowered_text() {
    assert!(is_tag_extension("m4a"));
    assert!(!is_tag_extension("M4A"));
    assert!(!is_tag_extension("png"));
}
