use slasshyvault::archive::{assess_archive_playback, build_archive_stream_info};
use slasshyvault::config::{apply_config_bounds, migrate_legacy_addon_url, migrate_legacy_addon_url_with_id, Config};
use slasshyvault::download::{
    build_chunk_ranges, chunk_action, kept_by_cleanup, sanitize_download_filename,
    status_after_cancel, unique_target_path, ChunkAction,
};
use slasshyvault::history::compute_watch_streak;
use slasshyvault::media::MediaItem;
use slasshyvault::titles::titles_are_similar;

fn media(format: &str, method: Option<i64>, offset: Option<i64>, size: Option<i64>) -> MediaItem {
    MediaItem {
        id: 1,
        title: "T".into(),
        year: None,
        overview: None,
        cast_names: None,
        director: None,
        poster_path: None,
        file_path: None,
        media_type: "tvepisode".into(),
        last_watched: None,
        season_number: None,
        episode_number: None,
        parent_id: None,
        tmdb_id: None,
        imdb_id: None,
        episode_title: None,
        still_path: None,
        is_cloud: None,
        cloud_file_id: None,
        cloud_folder_id: None,
        archive_format: Some(format.into()),
        parent_zip_id: Some("archive-id".into()),
        zip_entry_path: Some("ep.mkv".into()),
        zip_local_header_offset: None,
        zip_data_start_offset: offset,
        zip_compressed_size: size,
        zip_uncompressed_size: None,
        zip_crc32: None,
        zip_compression_method: method,
        file_size_bytes: None,
        ddl_source_id: None,
        archive_playback_can_play: None,
        archive_playback_mode: None,
        archive_playback_message: None,
        archive_playback_details: None,
    }
}

#[test]
fn chunk_ranges_cover_the_file_without_gaps() {
    for (total, chunk) in [(0u64, 1u64), (1, 1), (10, 3), (16, 4), (17, 4), (1000, 999)] {
        let ranges = build_chunk_ranges(total, chunk);
        let mut next = 0u64;
        for (start, end) in &ranges {
            assert_eq!(*start, next);
            assert!(start <= end);
            assert!(end - start + 1 <= chunk);
            next = end + 1;
        }
        assert_eq!(next, total);
    }
}

#[test]
fn sanitized_names_never_hold_separators_or_edge_dots() {
    for raw in ["../../etc/passwd", "..\\a\\b", "  .x.  ", "a/b", "ok.mkv", "", "...", ". x"] {
        let name = sanitize_download_filename(raw, "fallback");
        if name != "fallback" {
            assert!(!name.contains('/') && !name.contains('\\'));
            assert!(!name.starts_with('.') && !name.ends_with('.'));
            assert!(!name.is_empty());
        }
    }
    // white space is trimmed before dots, so a name may start with a space
    assert_eq!(sanitize_download_filename(". x", "fb"), " x");
}

#[test]
fn cancelling_twice_is_cancelling_once() {
    for status in ["queued", "preparing", "downloading", "completed", "failed", "cancelled", "odd"] {
        let once = status_after_cancel(status);
        assert_eq!(status_after_cancel(&once), once);
    }
    assert_eq!(status_after_cancel("completed"), "completed");
    assert_eq!(status_after_cancel("downloading"), "cancelled");
}

#[test]
fn cleanup_never_drops_an_active_job() {
    for status in ["queued", "preparing", "downloading"] {
        assert!(kept_by_cleanup(status, Some(i64::MAX)));
        assert!(kept_by_cleanup(status, None));
    }
    assert!(!kept_by_cleanup("completed", Some(604800)));
    assert!(kept_by_cleanup("completed", Some(604799)));
    assert!(kept_by_cleanup("failed", Some(-5)));
}

#[test]
fn retries_back_off_then_give_up() {
    assert_eq!(chunk_action(10, 10, 1), ChunkAction::Accept);
    assert_eq!(chunk_action(9, 10, 1), ChunkAction::Retry(250));
    assert_eq!(chunk_action(9, 10, 2), ChunkAction::Retry(500));
    assert_eq!(chunk_action(9, 10, 3), ChunkAction::Fail);
}

#[test]
fn bounds_applied_twice_change_nothing_more() {
    let mut c = Config::default();
    c.cloud_cache_max_mb = 250000;
    c.zip_cache_max_gb = 9000;
    c.cloud_scan_interval_minutes = 0;
    apply_config_bounds(&mut c);
    assert_eq!((c.cloud_cache_max_mb, c.zip_cache_max_gb, c.cloud_scan_interval_minutes), (100000, 500, 1));
    apply_config_bounds(&mut c);
    assert_eq!((c.cloud_cache_max_mb, c.zip_cache_max_gb, c.cloud_scan_interval_minutes), (100000, 500, 1));
    let mut d = Config::default();
    apply_config_bounds(&mut d);
    assert_eq!((d.cloud_cache_max_mb, d.zip_cache_max_gb, d.cloud_scan_interval_minutes), (1024, 20, 5));
}

#[test]
fn legacy_addon_url_migrates_once() {
    let mut c = Config::default();
    c.addon_url = Some("https://addons.example.org/catalog.json".into());
    assert!(migrate_legacy_addon_url_with_id(&mut c, "id-1".into()));
    assert!(c.addon_url.is_none());
    assert_eq!(c.addon_sources.len(), 1);
    assert_eq!(c.addon_sources[0].id, "id-1");
    assert_eq!(c.addon_sources[0].name, "Default");
    assert_eq!(c.addon_sources[0].url, "https://addons.example.org/catalog.json");
    assert!(c.addon_sources[0].enabled && c.addon_sources[0].is_default);
    assert!(!migrate_legacy_addon_url_with_id(&mut c, "id-2".into()));
    assert_eq!(c.addon_sources.len(), 1);
    let mut empty = Config::default();
    empty.addon_url = Some(String::new());
    assert!(!migrate_legacy_addon_url_with_id(&mut empty, "id".into()));
}

#[test]
fn similarity_is_symmetric_and_reflexive() {
    let titles = ["The Office", "office", "Star Trek The Next", "star trek next", "Lost", "Lost Girl"];
    for a in titles {
        assert!(titles_are_similar(a, a));
        for b in titles {
            assert_eq!(titles_are_similar(a, b), titles_are_similar(b, a));
        }
    }
}

#[test]
fn streak_never_exceeds_the_recorded_days() {
    let days: Vec<String> = ["2025-03-10", "2025-03-09"].iter().map(|d| d.to_string()).collect();
    assert!(compute_watch_streak(&days, "2025-03-10", "2025-03-09") <= days.len() as u64);
}

#[test]
fn free_target_name_is_not_taken() {
    let taken: Vec<String> = vec!["test.mp4".into(), "test (1).mp4".into(), "test (2).mp4".into()];
    assert_eq!(unique_target_path("/dl", "test.mp4", &taken), "/dl/test (3).mp4");
    assert_eq!(unique_target_path("/dl", "test.mp4", &Vec::new()), "/dl/test.mp4");
    let taken: Vec<String> = vec!["README".into()];
    assert_eq!(unique_target_path("/dl", "README", &taken), "/dl/README (1)");
    assert_eq!(unique_target_path("/dl", "file.", &Vec::new()), "/dl/file.");
}

#[test]
fn only_zip_entries_can_be_unplayable() {
    for format in ["tar", "rar"] {
        for method in [None, Some(0), Some(8), Some(99), Some(-2)] {
            let a = assess_archive_playback(&media(format, method, None, None)).unwrap();
            assert!(a.can_play);
        }
    }
    let a = assess_archive_playback(&media("zip", Some(99), None, None)).unwrap();
    assert!(!a.can_play);
}

#[test]
fn direct_playback_exactly_when_the_entry_streams() {
    for format in ["tar", "rar"] {
        for (method, offset, size) in [(Some(0), Some(0), Some(10)), (Some(0), None, Some(10)), (Some(8), Some(0), Some(10))] {
            let m = media(format, method, offset, size);
            let direct = assess_archive_playback(&m).unwrap().mode == "direct";
            assert_eq!(direct, build_archive_stream_info(&m).is_ok());
        }
    }
}

fn is_v4_uuid_text(s: &str) -> bool {
    let c: Vec<char> = s.chars().collect();
    c.len() == 36
        && c.iter().enumerate().all(|(i, ch)| match i {
            8 | 13 | 18 | 23 => *ch == '-',
            _ => ch.is_ascii_digit() || ('a'..='f').contains(ch),
        })
        && c[14] == '4'
        && "89ab".contains(c[19])
}

#[test]
fn migration_draws_a_v4_uuid() {
    let mut c = Config::default();
    c.addon_url = Some("https://addons.example.org/catalog.json".into());
    assert!(migrate_legacy_addon_url(&mut c));
    assert!(is_v4_uuid_text(&c.addon_sources[0].id));
    assert_eq!(c.cloud_cache_max_mb, Config::default().cloud_cache_max_mb);
}
