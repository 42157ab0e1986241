use wavebase::config::{data_dir_from, db_path, settings_path, Platform};
use wavebase::error::AppError;
use wavebase::library::{
    check_tag_deletable, distinct_names, file_not_found, is_under_root, like_prefix_pattern,
    page_window, scan_status, tag_filter_query,
};
use wavebase::paths::folder_path;
use wavebase::models::{Tag, TagProgress};
use wavebase::parser::parse_filename;
use wavebase::scanner::{chrono_from_system_time, is_audio_file, FileWatcher, ScannedFile};
use wavebase::tagging::{
    analysis_needs, artist_text, chunk_size, duration_tag, needs_pin, plan_metadata, tag_links,
    worker_ranges,
};

#[test]
fn audio_extensions_in_any_case() {
    assert!(is_audio_file("/music/a.wav"));
    assert!(is_audio_file("/music/B.WAV"));
    assert!(is_audio_file("song.Mp3"));
    assert!(is_audio_file("x.aif"));
    assert!(is_audio_file("x.aiff"));
    assert!(is_audio_file("x.flac"));
    assert!(is_audio_file("x.ogg"));
    assert!(is_audio_file("x.m4a"));
    assert!(is_audio_file("x.wma"));
    assert!(!is_audio_file("notes.txt"));
    assert!(!is_audio_file("wav"));
    assert!(!is_audio_file("archive.wav.zip"));
}

#[test]
fn timestamps_are_calendar_dates() {
    assert_eq!(chrono_from_system_time(Some(0)), Some("1970-01-01T00:00:00Z".to_string()));
    assert_eq!(chrono_from_system_time(Some(90061)), Some("1970-01-02T01:01:01Z".to_string()));
    assert_eq!(chrono_from_system_time(Some(31536000)), Some("1971-01-01T00:00:00Z".to_string()));
    assert_eq!(chrono_from_system_time(Some(31536000 - 1)), Some("1970-12-31T23:59:59Z".to_string()));
    assert_eq!(chrono_from_system_time(Some(1_000_000_000)), Some("2001-09-09T01:46:40Z".to_string()));
    // Leap days: 2000 is a leap year, 2100 is not.
    assert_eq!(chrono_from_system_time(Some(951782400)), Some("2000-02-29T00:00:00Z".to_string()));
    assert_eq!(chrono_from_system_time(Some(68256000)), Some("1972-03-01T00:00:00Z".to_string()));
    assert_eq!(chrono_from_system_time(Some(4102444800)), Some("2100-01-01T00:00:00Z".to_string()));
    assert_eq!(chrono_from_system_time(Some(253402300799)), Some("9999-12-31T23:59:59Z".to_string()));
    assert_eq!(chrono_from_system_time(None), None);
}

#[test]
fn scanned_file_lowercases_extension() {
    let f = ScannedFile::from_entry(
        "/m/Kick.WAV".to_string(),
        "Kick.WAV".to_string(),
        Some("WAV".to_string()),
        42,
        Some(0),
    );
    assert_eq!(f.extension, "wav");
    assert_eq!(f.size_bytes, 42);
    assert_eq!(f.modified_at, "1970-01-01T00:00:00Z");
    let g = ScannedFile::from_entry("/m/x".to_string(), "x".to_string(), None, 0, None);
    assert_eq!(g.extension, "");
    assert_eq!(g.modified_at, "");
}

#[test]
fn watcher_always_succeeds() {
    let w = FileWatcher::new().unwrap();
    assert!(w.watch("/tmp").is_ok());
}

#[test]
fn data_paths_join_under_the_data_dir() {
    assert_eq!(db_path("/data/wavebase"), "/data/wavebase/wavebase.db");
    assert_eq!(settings_path("/data/wavebase"), "/data/wavebase/settings.toml");
    assert_eq!(data_dir_from("/home/u", Platform::Other), "/home/u/.local/share/wavebase");
    assert_eq!(
        data_dir_from("/Users/u", Platform::MacOs),
        "/Users/u/Library/Application Support/wavebase"
    );
}

#[test]
fn tag_rows_read_flags_as_nonzero() {
    let t = Tag::from_row(3, "Loop".to_string(), None, 1, 0, 2);
    assert_eq!(t.id, 3);
    assert!(t.is_preset);
    assert!(!t.is_pinned);
    assert!(t.is_metadata);
    let n = Tag::inserted(9, "140 BPM".to_string(), true);
    assert_eq!(n.id, 9);
    assert_eq!(n.name, "140 BPM");
    assert!(n.color.is_none() && !n.is_preset && !n.is_pinned && n.is_metadata);
}

#[test]
fn tag_progress_runs_from_scanning_to_complete() {
    let idle = TagProgress::idle();
    assert_eq!(idle.status, "idle");
    let mut p = TagProgress::scanning(5);
    assert_eq!((p.total, p.processed, p.status.as_str()), (5, 0, "scanning"));
    p.record_processed(3);
    assert_eq!(p.processed, 3);
    assert!(!TagProgress::all_done(3, 5));
    assert!(TagProgress::all_done(5, 5));
    p.finish();
    assert_eq!((p.total, p.processed, p.status.as_str()), (5, 5, "complete"));
    let mut empty = TagProgress::scanning(0);
    empty.mark_complete();
    assert_eq!((empty.total, empty.processed, empty.status.as_str()), (0, 0, "complete"));
}

#[test]
fn preset_tags_cannot_be_deleted() {
    match check_tag_deletable(Some(1)) {
        Err(AppError::Database(m)) => assert_eq!(m, "Cannot delete preset tags"),
        other => panic!("unexpected {:?}", other),
    }
    assert!(check_tag_deletable(Some(0)).is_ok());
    assert!(check_tag_deletable(None).is_ok());
}

#[test]
fn file_not_found_names_the_path() {
    match file_not_found("/a.wav", "no rows") {
        AppError::Database(m) => assert_eq!(m, "File not found: /a.wav (no rows)"),
        other => panic!("unexpected {:?}", other),
    }
}

#[test]
fn listing_pages_default_to_first_thousand() {
    assert_eq!(page_window(None, None), (1000, 0));
    assert_eq!(page_window(Some(20), Some(40)), (20, 40));
}

#[test]
fn scan_status_is_not_implemented() {
    match scan_status() {
        Err(AppError::NotImplemented(m)) => assert_eq!(m, "scan_status"),
        other => panic!("unexpected {:?}", other),
    }
}

#[test]
fn tag_filter_query_counts_placeholders() {
    let q = tag_filter_query(2);
    assert_eq!(
        q,
        "SELECT f.path FROM audio_files f\n         JOIN file_tags ft ON f.id = ft.file_id\n         JOIN tags t ON ft.tag_id = t.id\n         WHERE t.name IN (?1,?2)\n         GROUP BY f.id\n         HAVING COUNT(DISTINCT t.id) = ?3"
    );
    assert!(tag_filter_query(12).contains("IN (?1,?2,?3,?4,?5,?6,?7,?8,?9,?10,?11,?12)"));
    assert!(tag_filter_query(12).ends_with("= ?13"));
}

#[test]
fn like_pattern_escapes_wildcards() {
    assert_eq!(like_prefix_pattern("/music/a_b"), "/music/a\\_b%");
    assert_eq!(like_prefix_pattern("C:\\x%y"), "C:\\\\x\\%y%");
    assert_eq!(like_prefix_pattern(""), "%");
}

#[test]
fn analysis_runs_only_for_missing_fields() {
    let p = parse_filename("kick 140bpm.wav");
    let n = analysis_needs(false, &p);
    assert!(!n.bpm && n.key);
    let n = analysis_needs(true, &p);
    assert!(!n.bpm && !n.key);
}

#[test]
fn metadata_plan_prefers_file_name_values() {
    let p = parse_filename("kick 140bpm @x @y.wav");
    let u = plan_metadata(false, &p, Some(99), Some("E Minor".to_string()));
    assert!(u.write_row);
    assert_eq!(u.bpm, Some(140));
    assert!(!u.bpm_analyzed);
    assert_eq!(u.key, Some("E Minor".to_string()));
    assert!(u.key_analyzed);
    assert_eq!(u.artist, Some("x, y".to_string()));
    assert_eq!(u.track_name, Some("kick".to_string()));
    let again = plan_metadata(true, &p, None, None);
    assert!(!again.write_row);
    assert_eq!(again.bpm, None);
    assert_eq!(again.key, None);
    assert!(!again.bpm_analyzed && !again.key_analyzed);
}

#[test]
fn artist_field_joins_with_comma() {
    assert_eq!(artist_text(&vec![]), None);
    assert_eq!(artist_text(&vec!["x".to_string()]), Some("x".to_string()));
    assert_eq!(
        artist_text(&vec!["x".to_string(), "y".to_string(), "z".to_string()]),
        Some("x, y, z".to_string())
    );
}

#[test]
fn tag_links_follow_creation_order() {
    let p = parse_filename("Kick_Loop_140bpm_Dm_@user.wav");
    let links = tag_links(&p, p.bpm, p.key.clone(), Some((2, 5)));
    let names: Vec<&str> = links.iter().map(|l| l.name.as_str()).collect();
    assert_eq!(names, vec!["@user", "140 BPM", "D Minor", "Loop", "2:05"]);
    assert_eq!(
        links.iter().map(|l| (l.is_metadata, l.pin)).collect::<Vec<_>>(),
        vec![(true, false), (true, false), (true, false), (false, true), (true, false)]
    );
    let without_length = tag_links(&p, p.bpm, p.key.clone(), None);
    assert_eq!(without_length.len(), 4);
    assert!(needs_pin(&links[3], false));
    assert!(!needs_pin(&links[3], true));
    assert!(!needs_pin(&links[0], false));
}

#[test]
fn duration_tags_pad_seconds() {
    assert_eq!(duration_tag(0, 32), "0:32");
    assert_eq!(duration_tag(1, 5), "1:05");
    assert_eq!(duration_tag(12, 0), "12:00");
}

#[test]
fn workers_share_files_in_chunks() {
    assert_eq!(chunk_size(10), 3);
    assert_eq!(chunk_size(8), 2);
    assert_eq!(chunk_size(1), 1);
    assert_eq!(worker_ranges(10), vec![(0, 3), (3, 6), (6, 9), (9, 10)]);
    assert_eq!(worker_ranges(5), vec![(0, 2), (2, 4), (4, 5)]);
    assert_eq!(worker_ranges(1), vec![(0, 1)]);
    assert_eq!(worker_ranges(0), Vec::<(usize, usize)>::new());
}

#[test]
fn files_under_a_root_are_whole_components() {
    assert!(is_under_root("/music/a.wav", "/music"));
    assert!(is_under_root("/music/sub/b.wav", "/music"));
    assert!(is_under_root("/music/a.wav", "/music/"));
    assert!(!is_under_root("/music2/c.wav", "/music"));
    assert!(!is_under_root("/MUSIC/d.wav", "/music"));
    assert!(!is_under_root("/other/e.wav", "/music"));
    assert!(!is_under_root("/music", "/music"));
}

#[test]
fn folder_of_a_file_is_its_parent() {
    assert_eq!(folder_path("/music/sub/b.wav"), "/music/sub");
    assert_eq!(folder_path("b.wav"), "");
    assert_eq!(folder_path("/"), "");
}

#[test]
fn tag_filter_names_are_distinct() {
    let names = vec!["Loop".to_string(), "Loop".to_string(), "140 BPM".to_string(), "Loop".to_string()];
    assert_eq!(distinct_names(&names), vec!["Loop".to_string(), "140 BPM".to_string()]);
    assert_eq!(distinct_names(&vec![]), Vec::<String>::new());
    let q = tag_filter_query(distinct_names(&names).len());
    assert!(q.contains("IN (?1,?2)"));
    assert!(q.ends_with("= ?3"));
}

#[test]
fn timestamps_of_the_largest_seconds_do_not_fail() {
    assert!(chrono_from_system_time(Some(u64::MAX)).unwrap().ends_with("T07:00:15Z"));
}
