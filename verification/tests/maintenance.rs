use slasshyvault::direct_link::{
    check_entry_count, check_index_format, ddl_index_result, ddl_indexed_entry,
};
use slasshyvault::download::{local_copy_step, CopyAction, CopyEvent};
use slasshyvault::duplicates::{duplicate_title_key, find_duplicate_groups, sort_ids};
use slasshyvault::media::{MediaParseType, ParsedMedia};
use slasshyvault::merging::{title_merge_groups, tmdb_merge_groups};
use slasshyvault::titles::{may_merge_title_group, merge_primary};

fn tmdb_rows(list: &[(i64, &str, Option<&str>)]) -> Vec<(i64, String, Option<String>)> {
    list.iter().map(|(i, k, t)| (*i, k.to_string(), t.map(|t| t.to_string()))).collect()
}

fn rows3(list: &[(i64, &str, &str)]) -> Vec<(i64, String, String)> {
    list.iter().map(|(i, k, t)| (*i, k.to_string(), t.to_string())).collect()
}

#[test]
fn title_key_keeps_letters_and_digits() {
    let key: String = duplicate_title_key("Monarch: Legacy of Monsters (2023)").into_iter().collect();
    assert_eq!(key, "monarchlegacyofmonsters2023");
}

#[test]
fn ids_sort_ascending() {
    assert_eq!(sort_ids(&vec![5, -1, 3, 3, 0]), vec![-1, 0, 3, 3, 5]);
}

#[test]
fn duplicates_by_tmdb_and_title() {
    let tmdb = tmdb_rows(&[
        (4, "movie", Some("100")),
        (1, "movie", Some("100")),
        (7, "movie", Some("200")),
        (2, "tvshow", Some("300")),
        (9, "tvshow", Some("300")),
        (3, "tvshow", Some("300")),
    ]);
    let titles = rows3(&[
        (1, "movie", "Alien"),
        (4, "movie", "ALIEN!"),
        (5, "movie", "Heat"),
        (6, "tvshow", "Heat"),
        (8, "movie", "heat"),
        (10, "tvshow", "Dark"),
    ]);
    let groups = find_duplicate_groups(&tmdb, &titles);
    assert_eq!(groups.len(), 3);
    // largest first
    assert_eq!(groups[0].ids, vec![2, 3, 9]);
    assert_eq!(groups[0].reason, "Same TMDB ID (300)");
    assert_eq!(groups[1].ids, vec![1, 4]);
    assert_eq!(groups[1].reason, "Same TMDB ID (100)");
    // the Alien pair is already a TMDB group; the movies called Heat are new
    assert_eq!(groups[2].ids, vec![5, 8]);
    assert_eq!(groups[2].reason, "Similar title (\"Heat\")");
}

#[test]
fn no_duplicates_without_pairs() {
    let groups = find_duplicate_groups(
        &tmdb_rows(&[(1, "movie", Some("a"))]),
        &rows3(&[(1, "movie", "A"), (2, "tvshow", "A")]),
    );
    assert!(groups.is_empty());
}

#[test]
fn only_movies_and_shows_with_a_tmdb_id_are_grouped() {
    let tmdb = tmdb_rows(&[
        (1, "movie", Some("")),
        (2, "movie", Some("")),
        (3, "tvshow", None),
        (4, "tvshow", None),
        (5, "tvepisode", Some("77")),
        (6, "tvepisode", Some("77")),
        (7, "movie", Some("77")),
    ]);
    let titles = rows3(&[(5, "tvepisode", "Pilot"), (6, "tvepisode", "Pilot"), (8, "unknown", "X"), (9, "unknown", "X")]);
    assert!(find_duplicate_groups(&tmdb, &titles).is_empty());
}

#[test]
fn title_groups_merge_only_when_safe() {
    let one = vec![Some("1".to_string())];
    assert!(!may_merge_title_group(&one, &vec![Some(2020)]));
    let ids = vec![Some(" 55 ".to_string()), Some("55".to_string()), None, Some("  ".to_string())];
    assert!(may_merge_title_group(&ids, &vec![Some(2020), Some(2021), None, Some(2020)]));
    assert!(!may_merge_title_group(&ids, &vec![Some(2019), Some(2021), None, None]));
    let clash = vec![Some("55".to_string()), Some("56".to_string())];
    assert!(!may_merge_title_group(&clash, &vec![None, None]));
}

#[test]
fn merge_keeps_the_most_complete_series() {
    assert_eq!(merge_primary(&vec![10, 11, 12], &vec![5, 17, 17]), 11);
    assert_eq!(merge_primary(&vec![10, 11], &vec![0, 0]), 10);
    assert_eq!(merge_primary(&vec![10, 11], &vec![0, 1]), 11);
}

#[test]
fn local_copy_steps() {
    assert!(matches!(local_copy_step(5, CopyEvent::CancelRequested), CopyAction::Cancel));
    assert!(matches!(local_copy_step(5, CopyEvent::EndOfSource), CopyAction::Finalize));
    assert!(matches!(local_copy_step(5, CopyEvent::Copied(10)), CopyAction::Continue(15)));
    assert!(matches!(local_copy_step(u64::MAX - 1, CopyEvent::Copied(10)), CopyAction::Continue(u64::MAX)));
    match local_copy_step(0, CopyEvent::ReadFailed("disk gone".into())) {
        CopyAction::Fail(m) => assert_eq!(m, "Failed to read source file: disk gone"),
        _ => panic!("expected a failure"),
    }
    match local_copy_step(0, CopyEvent::WriteFailed("full".into())) {
        CopyAction::Fail(m) => assert_eq!(m, "Failed to write target file: full"),
        _ => panic!("expected a failure"),
    }
}

#[test]
fn only_zip_links_are_indexed() {
    assert!(check_index_format("season.zip", "application/octet-stream").is_ok());
    assert_eq!(
        check_index_format("season.rar", "application/octet-stream").unwrap_err(),
        "Direct link indexing for rar archives is not yet supported. Only ZIP is currently supported."
    );
    assert_eq!(
        check_index_format("season.mkv", "video/x-matroska").unwrap_err(),
        "This file is not a supported archive format (ZIP, RAR, or TAR)."
    );
}

#[test]
fn entry_counts_are_capped() {
    assert!(check_entry_count(10000).is_ok());
    assert_eq!(check_entry_count(10001).unwrap_err(), "Archive contains too many entries");
}

#[test]
fn indexed_entries_fall_back_to_their_name() {
    let e = ddl_indexed_entry("S01/Show.S01E02.mkv".into(), None, 8, 10, 70, 500, 900, 0xbeef);
    assert_eq!(e.entry_name, "Show.S01E02.mkv");
    assert_eq!(e.title, "Show.S01E02.mkv");
    assert_eq!(e.season, None);
    assert_eq!(e.crc32, "0000beef");
    assert_eq!(e.compression_method, 8);
    let parsed = ParsedMedia {
        title: "Show".into(),
        year: None,
        media_type: MediaParseType::TvEpisode,
        season: Some(1),
        episode: Some(2),
        episode_end: None,
    };
    let e = ddl_indexed_entry("Show.S01E02.mkv".into(), Some(parsed), 0, 0, 40, 900, 900, 0xdeadbeef);
    assert_eq!(e.title, "Show");
    assert_eq!((e.season, e.episode), (Some(1), Some(2)));
    assert_eq!(e.crc32, "deadbeef");
}

#[test]
fn index_needs_a_playable_entry() {
    let err = ddl_index_result("id".into(), "https://h/s.zip", "s.zip", 1000, 3, 900, 100, "now".into(), Vec::new())
        .unwrap_err();
    assert_eq!(err, "No playable video files found in this archive.");
    let entry = ddl_indexed_entry("a.mkv".into(), None, 0, 0, 30, 10, 10, 1);
    let ok = ddl_index_result("id".into(), "https://h/s.zip", "s.zip", 1000, 3, 900, 100, "now".into(), vec![entry])
        .unwrap();
    assert_eq!(ok.source.video_count, 1);
    assert_eq!(ok.source.entry_count, 3);
    assert_eq!(ok.source.archive_format, "zip");
    assert_eq!(ok.source.created_at, "now");
    assert!(!ok.source.is_expired);
}

fn series(list: &[(i64, &str, &str, Option<&str>, Option<i32>)]) -> Vec<(i64, String, String, Option<String>, Option<i32>)> {
    list.iter()
        .map(|(i, k, t, id, y)| (*i, k.to_string(), t.to_string(), id.map(|s| s.to_string()), *y))
        .collect()
}

#[test]
fn shows_sharing_a_tmdb_id_are_merged() {
    let rows = series(&[
        (9, "tvshow", "Dark", Some("70523"), Some(2017)),
        (2, "tvshow", "Dark (2017)", Some("70523"), None),
        (3, "movie", "Dark", Some("70523"), None),
        (4, "tvshow", "X", Some(""), None),
        (5, "tvshow", "Y", Some(""), None),
        (6, "tvshow", "Z", None, None),
        (7, "tvshow", "Z", None, None),
        (8, "tvshow", "Lost", Some("4607"), None),
    ]);
    assert_eq!(tmdb_merge_groups(&rows), vec![vec![2, 9]]);
}

#[test]
fn shows_with_one_normalised_title_are_merged_when_safe() {
    let rows = series(&[
        (1, "tvshow", "Monarch: Legacy of Monsters", Some("202411"), Some(2023)),
        (2, "tvshow", "Monarch Legacy of Monsters", None, Some(2024)),
        (3, "movie", "Monarch Legacy of Monsters", None, None),
        // same title, two different TMDB ids: kept apart
        (4, "tvshow", "Doctor Who", Some("57243"), Some(2005)),
        (5, "tvshow", "Doctor-Who", Some("121"), Some(2005)),
        // same title, years far apart: kept apart
        (6, "tvshow", "Battlestar Galactica", None, Some(1978)),
        (7, "tvshow", "Battlestar Galactica", None, Some(2004)),
        (8, "tvshow", "Law & Order", Some(" 549 "), None),
        (9, "tvshow", "law and order", Some("549"), None),
        (10, "tvshow", "Law and Order", None, None),
    ]);
    assert_eq!(title_merge_groups(&rows), vec![vec![1, 2], vec![8, 9, 10]]);
}
