use slasshyvault::archive::{
    archive_cache_file_name, archive_entry_location, archive_temp_file_name, assess_archive_playback,
    build_archive_stream_info, analyzed_archive_info, rar_header_is_indexed, rar_index_entry,
    rar_listed_entry, tar_index_entry, tar_stream_is_gzip,
};
use slasshyvault::media::{MediaItem, MediaParseType, ParsedMedia, ZipCompressionType};

fn media() -> MediaItem {
    MediaItem {
        id: 7,
        title: "My Show".into(),
        year: None,
        overview: None,
        cast_names: None,
        director: None,
        poster_path: None,
        file_path: None,
        media_type: "tvepisode".into(),
        last_watched: None,
        season_number: None,
        episode_number: None,
        parent_id: None,
        tmdb_id: None,
        imdb_id: None,
        episode_title: None,
        still_path: None,
        is_cloud: None,
        cloud_file_id: None,
        cloud_folder_id: None,
        archive_format: None,
        parent_zip_id: None,
        zip_entry_path: None,
        zip_local_header_offset: None,
        zip_data_start_offset: None,
        zip_compressed_size: None,
        zip_uncompressed_size: None,
        zip_crc32: None,
        zip_compression_method: None,
        file_size_bytes: None,
        ddl_source_id: None,
        archive_playback_can_play: None,
        archive_playback_mode: None,
        archive_playback_message: None,
        archive_playback_details: None,
    }
}

fn parsed() -> ParsedMedia {
    ParsedMedia {
        title: "Show".into(),
        year: None,
        media_type: MediaParseType::TvEpisode,
        season: Some(1),
        episode: Some(3),
        episode_end: None,
    }
}

#[test]
fn cache_file_name_has_label_hash_and_extension() {
    let name = archive_cache_file_name("My Show", "folder/video.mp4", 0x1f);
    assert_eq!(name, "archive-My_Show-folder_video.mp4-000000000000001f.mp4");
    let name = archive_cache_file_name("Show", "video", u64::MAX);
    assert_eq!(name, "archive-Show-video-ffffffffffffffff.bin");
}

#[test]
fn temp_file_name_is_made_safe() {
    assert_eq!(
        archive_temp_file_name("id/1", "extract", "My Season.rar"),
        "id_1-extract-My_Season.rar"
    );
}

#[test]
fn entry_location_errors_name_what_is_missing() {
    let mut m = media();
    assert_eq!(archive_entry_location(&m), Err("Archive file ID not found".to_string()));
    m.parent_zip_id = Some("file1".into());
    assert_eq!(archive_entry_location(&m), Err("Archive entry path not found".to_string()));
    m.file_path = Some("video.mkv".into());
    assert_eq!(
        archive_entry_location(&m),
        Ok(("file1".to_string(), "video.mkv".to_string()))
    );
    m.zip_entry_path = Some("dir/ep.mkv".into());
    assert_eq!(
        archive_entry_location(&m),
        Ok(("file1".to_string(), "dir/ep.mkv".to_string()))
    );
}

#[test]
fn tar_gzip_detection() {
    assert!(tar_stream_is_gzip("season.tar", Some("Application/GZIP")));
    assert!(tar_stream_is_gzip("season.tgz", None));
    assert!(!tar_stream_is_gzip("season.tar", Some("application/x-tar")));
}

#[test]
fn tar_entries_keep_offsets_only_when_passed_through() {
    let e = tar_index_entry("Show/S01/ep03.mkv".into(), parsed(), 512, 1024, 4096, true);
    assert_eq!(e.entry_name, "ep03.mkv");
    assert_eq!(e.local_header_offset, 512);
    assert_eq!(e.data_start_offset, 1024);
    assert_eq!(e.compressed_size, 4096);
    assert_eq!(e.uncompressed_size, 4096);
    assert_eq!(e.crc32, "00000000");
    assert_eq!(e.compression_method, 0);
    let g = tar_index_entry("ep03.mkv".into(), parsed(), 512, 1024, 4096, false);
    assert_eq!(g.entry_name, "ep03.mkv");
    assert_eq!(g.local_header_offset, 0);
    assert_eq!(g.data_start_offset, 0);
    assert_eq!(g.compressed_size, 0);
    assert_eq!(g.uncompressed_size, 4096);
    assert_eq!(g.compression_method, -2);
}

#[test]
fn tar_archive_record() {
    let info = analyzed_archive_info(slasshyvault::archive::ArchiveFormat::Tar, "fid", "season.tar", 10_000, 12, 10);
    assert_eq!(info.archive_format, "tar");
    assert_eq!(info.compression_type, ZipCompressionType::Other);
    assert_eq!(info.central_dir_offset, 0);
    assert_eq!(info.total_entries, 12);
    assert_eq!(info.video_entries, 10);
}

#[test]
fn stream_info_covers_exactly_the_stored_bytes() {
    let mut m = media();
    m.archive_format = Some("tar".into());
    m.parent_zip_id = Some("z".into());
    m.zip_compression_method = Some(0);
    m.zip_data_start_offset = Some(10);
    m.zip_compressed_size = Some(5);
    m.zip_entry_path = Some("a/b.mkv".into());
    let info = build_archive_stream_info(&m).unwrap();
    assert_eq!((info.byte_start, info.byte_end), (10, 14));
    assert_eq!(info.byte_end - info.byte_start + 1, 5);
    // an empty entry still spans one byte
    m.zip_compressed_size = Some(0);
    let info = build_archive_stream_info(&m).unwrap();
    assert_eq!((info.byte_start, info.byte_end), (10, 10));
}

#[test]
fn stream_range_that_overflows_is_refused() {
    let mut m = media();
    m.archive_format = Some("tar".into());
    m.parent_zip_id = Some("z".into());
    m.zip_compression_method = Some(0);
    m.zip_data_start_offset = Some(-1);
    m.zip_compressed_size = Some(2);
    let err = build_archive_stream_info(&m).unwrap_err();
    assert_eq!(err, "Archive entry range overflow");
}

#[test]
fn unsupported_zip_detail_names_the_method() {
    let mut m = media();
    m.parent_zip_id = Some("z".into());
    m.zip_compression_method = Some(99);
    let a = assess_archive_playback(&m).unwrap();
    assert_eq!(
        a.details,
        vec!["ZIP entry uses unsupported compression or archive metadata (method 99).".to_string()]
    );
}

#[test]
fn rar_entries_stream_only_when_stored_in_one_piece() {
    let e = rar_index_entry("S1/ep.mkv".into(), parsed(), false, false, 1, Some((4096, 1000)), 1000).unwrap();
    assert_eq!(e.entry_name, "ep.mkv");
    assert_eq!((e.data_start_offset, e.compressed_size, e.compression_method), (4096, 1000, 0));
    let c = rar_index_entry("ep.mkv".into(), parsed(), true, false, 1, Some((4096, 1000)), 1000).unwrap();
    assert_eq!((c.data_start_offset, c.compressed_size, c.compression_method), (0, 0, -1));
    let split = rar_index_entry("ep.mkv".into(), parsed(), false, false, 2, None, 1000).unwrap();
    assert_eq!(split.compression_method, -1);
    let err = rar_index_entry("ep.mkv".into(), parsed(), false, false, 1, None, 1000).unwrap_err();
    assert_eq!(err, "RAR entry missing raw chunk metadata");
}

#[test]
fn rar_listing_records() {
    assert!(rar_header_is_indexed(true, false, false));
    assert!(!rar_header_is_indexed(true, true, false));
    assert!(!rar_header_is_indexed(true, false, true));
    assert!(!rar_header_is_indexed(false, false, false));
    let e = rar_listed_entry("dir/ep.mkv".into(), parsed(), 123, 0xa1b2c3);
    assert_eq!(e.crc32, "00a1b2c3");
    assert_eq!(e.compression_method, -1);
    assert_eq!(e.uncompressed_size, 123);
}
