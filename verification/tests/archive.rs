use slasshyvault::archive::{
    archive_filename_for_media, archive_format_for_media, assess_archive_playback,
    build_archive_stream_info, detect_archive_format, is_gzip_tar, is_supported_archive_item,
    safe_filename, AnalyzedArchive, ArchiveFormat, ArchivePlaybackAssessment, IndexedArchiveEntry,
    ARCHIVE_STREAM_BUFFER_BYTES, DRIVE_API_BASE, RAR_HEADER_PREFETCH_BYTES,
};
use slasshyvault::media::{MediaItem, MediaParseType, ParsedMedia, ZipArchiveInfo, ZipCompressionType};

fn default_media_item() -> MediaItem {
    MediaItem {
        id: 1,
        title: "Test Title".into(),
        year: None,
        overview: None,
        cast_names: None,
        director: None,
        poster_path: None,
        file_path: None,
        media_type: "video".into(),
        last_watched: None,
        season_number: None,
        episode_number: None,
        parent_id: None,
        tmdb_id: None,
        imdb_id: None,
        episode_title: None,
        still_path: None,
        is_cloud: None,
        cloud_file_id: None,
        cloud_folder_id: None,
        archive_format: None,
        parent_zip_id: None,
        zip_entry_path: None,
        zip_local_header_offset: None,
        zip_data_start_offset: None,
        zip_compressed_size: None,
        zip_uncompressed_size: None,
        zip_crc32: None,
        zip_compression_method: None,
        file_size_bytes: None,
        ddl_source_id: None,
        archive_playback_can_play: None,
        archive_playback_mode: None,
        archive_playback_message: None,
        archive_playback_details: None,
    }
}

#[test]
fn archive_format_as_str() {
    assert_eq!(ArchiveFormat::Zip.as_str(), "zip");
    assert_eq!(ArchiveFormat::Tar.as_str(), "tar");
    assert_eq!(ArchiveFormat::Rar.as_str(), "rar");
}

#[test]
fn archive_format_debug_clone_eq() {
    let zip = ArchiveFormat::Zip;
    assert_eq!(zip, ArchiveFormat::Zip);
    assert_ne!(zip, ArchiveFormat::Rar);
    let cloned = zip;
    assert_eq!(cloned, zip);
    let _ = format!("{:?}", zip);
}

#[test]
fn detect_zip_by_extension() {
    assert_eq!(
        detect_archive_format("movie.zip", None),
        Some(ArchiveFormat::Zip)
    );
}

#[test]
fn detect_zip_by_mime_application_zip() {
    assert_eq!(
        detect_archive_format("movie", Some("application/zip")),
        Some(ArchiveFormat::Zip)
    );
}

#[test]
fn detect_zip_by_mime_x_zip_compressed() {
    assert_eq!(
        detect_archive_format("movie", Some("application/x-zip-compressed")),
        Some(ArchiveFormat::Zip)
    );
}

#[test]
fn detect_zip_case_insensitive_extension() {
    assert_eq!(
        detect_archive_format("MOVIE.ZIP", None),
        Some(ArchiveFormat::Zip)
    );
    assert_eq!(
        detect_archive_format("movie.Zip", None),
        Some(ArchiveFormat::Zip)
    );
}

#[test]
fn detect_zip_case_insensitive_mime() {
    assert_eq!(
        detect_archive_format("movie", Some("APPLICATION/ZIP")),
        Some(ArchiveFormat::Zip)
    );
}

#[test]
fn detect_rar_by_extension() {
    assert_eq!(
        detect_archive_format("movie.rar", None),
        Some(ArchiveFormat::Rar)
    );
}

#[test]
fn detect_rar_by_mime_x_rar_compressed() {
    assert_eq!(
        detect_archive_format("movie", Some("application/x-rar-compressed")),
        Some(ArchiveFormat::Rar)
    );
}

#[test]
fn detect_rar_by_mime_vnd_rar() {
    assert_eq!(
        detect_archive_format("movie", Some("application/vnd.rar")),
        Some(ArchiveFormat::Rar)
    );
}

#[test]
fn detect_rar_case_insensitive() {
    assert_eq!(
        detect_archive_format("MOVIE.RAR", None),
        Some(ArchiveFormat::Rar)
    );
}

#[test]
fn detect_tar_by_extension() {
    assert_eq!(
        detect_archive_format("archive.tar", None),
        Some(ArchiveFormat::Tar)
    );
}

#[test]
fn detect_tar_by_tar_gz_extension() {
    assert_eq!(
        detect_archive_format("archive.tar.gz", None),
        Some(ArchiveFormat::Tar)
    );
}

#[test]
fn detect_tar_by_tgz_extension() {
    assert_eq!(
        detect_archive_format("archive.tgz", None),
        Some(ArchiveFormat::Tar)
    );
}

#[test]
fn detect_tar_by_mime_application_tar() {
    assert_eq!(
        detect_archive_format("archive", Some("application/x-tar")),
        Some(ArchiveFormat::Tar)
    );
}

#[test]
fn detect_tar_by_mime_application_gzip() {
    assert_eq!(
        detect_archive_format("archive", Some("application/gzip")),
        Some(ArchiveFormat::Tar)
    );
}

#[test]
fn detect_tar_case_insensitive() {
    assert_eq!(
        detect_archive_format("ARCHIVE.TAR.GZ", None),
        Some(ArchiveFormat::Tar)
    );
    assert_eq!(
        detect_archive_format("ARCHIVE.TGZ", None),
        Some(ArchiveFormat::Tar)
    );
}

#[test]
fn detect_unknown_extension() {
    assert_eq!(detect_archive_format("file.txt", None), None);
    assert_eq!(detect_archive_format("file.mp4", None), None);
    assert_eq!(detect_archive_format("file.mkv", None), None);
}

#[test]
fn detect_unknown_mime() {
    assert_eq!(detect_archive_format("file", Some("text/plain")), None);
}

#[test]
fn detect_empty_name_and_mime() {
    assert_eq!(detect_archive_format("", None), None);
    assert_eq!(detect_archive_format("", Some("")), None);
}

#[test]
fn detect_mime_takes_precedence_no_extension() {
    assert_eq!(
        detect_archive_format("noext", Some("application/zip")),
        Some(ArchiveFormat::Zip)
    );
}

#[test]
fn detect_zip_not_confused_by_nonarchive_zip_in_name() {
    // "zipping.mp4" ends with ".mp4", not ".zip"
    assert_eq!(detect_archive_format("zipping.mp4", None), None);
}

#[test]
fn is_supported_archive_item_zip() {
    assert!(is_supported_archive_item("file.zip", None));
}

#[test]
fn is_supported_archive_item_rar() {
    assert!(is_supported_archive_item("file.rar", None));
}

#[test]
fn is_supported_archive_item_tar() {
    assert!(is_supported_archive_item("file.tar", None));
}

#[test]
fn is_supported_archive_item_tar_gz() {
    assert!(is_supported_archive_item("file.tar.gz", None));
}

#[test]
fn is_supported_archive_item_tgz() {
    assert!(is_supported_archive_item("file.tgz", None));
}

#[test]
fn is_supported_archive_item_with_mime() {
    assert!(is_supported_archive_item("file", Some("application/zip")));
}

#[test]
fn is_supported_archive_item_unsupported() {
    assert!(!is_supported_archive_item("file.mp4", None));
    assert!(!is_supported_archive_item("file.txt", None));
    assert!(!is_supported_archive_item("", None));
}

#[test]
fn archive_format_for_media_zip_default() {
    let media = default_media_item();
    // archive_format is None, defaults to Zip
    assert_eq!(archive_format_for_media(&media), ArchiveFormat::Zip);
}

#[test]
fn archive_format_for_media_explicit_zip() {
    let mut media = default_media_item();
    media.archive_format = Some("zip".into());
    assert_eq!(archive_format_for_media(&media), ArchiveFormat::Zip);
}

#[test]
fn archive_format_for_media_tar() {
    let mut media = default_media_item();
    media.archive_format = Some("tar".into());
    assert_eq!(archive_format_for_media(&media), ArchiveFormat::Tar);
}

#[test]
fn archive_format_for_media_rar() {
    let mut media = default_media_item();
    media.archive_format = Some("rar".into());
    assert_eq!(archive_format_for_media(&media), ArchiveFormat::Rar);
}

#[test]
fn archive_format_for_media_unknown_defaults_zip() {
    let mut media = default_media_item();
    media.archive_format = Some("7z".into());
    assert_eq!(archive_format_for_media(&media), ArchiveFormat::Zip);
}

#[test]
fn archive_format_for_media_empty_string_defaults_zip() {
    let mut media = default_media_item();
    media.archive_format = Some("".into());
    assert_eq!(archive_format_for_media(&media), ArchiveFormat::Zip);
}

#[test]
fn indexed_archive_entry_clone_debug() {
    let parsed = ParsedMedia {
        title: "Ep".into(),
        year: None,
        media_type: MediaParseType::TvEpisode,
        season: Some(1),
        episode: Some(2),
        episode_end: None,
    };
    let entry = IndexedArchiveEntry {
        entry_path: "folder/ep.mkv".into(),
        entry_name: "ep.mkv".into(),
        parsed,
        local_header_offset: 100,
        data_start_offset: 200,
        compressed_size: 500,
        uncompressed_size: 1000,
        crc32: "deadbeef".into(),
        compression_method: 0,
    };
    let cloned = entry.clone();
    assert_eq!(cloned.entry_path, "folder/ep.mkv");
    assert_eq!(cloned.entry_name, "ep.mkv");
    assert_eq!(cloned.local_header_offset, 100);
    assert_eq!(cloned.data_start_offset, 200);
    assert_eq!(cloned.compressed_size, 500);
    assert_eq!(cloned.uncompressed_size, 1000);
    assert_eq!(cloned.crc32, "deadbeef");
    assert_eq!(cloned.compression_method, 0);
    let _ = format!("{:?}", entry);
}

#[test]
fn analyzed_archive_clone_debug() {
    let analyzed = AnalyzedArchive {
        archive: ZipArchiveInfo {
            zip_file_id: "abc123".into(),
            filename: "test.zip".into(),
            archive_format: "zip".into(),
            file_size_bytes: 9999,
            compression_type: ZipCompressionType::Other,
            central_dir_offset: 0,
            central_dir_size: 0,
            total_entries: 0,
            video_entries: 0,
        },
        indexed_entries: vec![],
    };
    let cloned = analyzed.clone();
    assert_eq!(cloned.archive.zip_file_id, "abc123");
    assert_eq!(cloned.archive.filename, "test.zip");
    assert_eq!(cloned.archive.file_size_bytes, 9999);
    assert!(cloned.indexed_entries.is_empty());
    let _ = format!("{:?}", analyzed);
}

#[test]
fn archive_playback_assessment_clone_debug() {
    let assessment = ArchivePlaybackAssessment {
        can_play: true,
        mode: "direct".into(),
        message: "OK".into(),
        details: vec!["detail".into()],
    };
    let cloned = assessment.clone();
    assert!(cloned.can_play);
    assert_eq!(cloned.mode, "direct");
    assert_eq!(cloned.message, "OK");
    assert_eq!(cloned.details.len(), 1);
    let _ = format!("{:?}", assessment);
}

#[test]
fn assess_archive_playback_returns_none_without_parent_zip() {
    let media = default_media_item();
    assert!(assess_archive_playback(&media).is_none());
}

#[test]
fn assess_zip_playback_store_method_0_can_stream() {
    let mut media = default_media_item();
    media.parent_zip_id = Some("file123".into());
    media.archive_format = Some("zip".into());
    media.zip_compression_method = Some(0);
    media.zip_data_start_offset = Some(0);
    media.zip_compressed_size = Some(1000);
    media.zip_entry_path = Some("video.mp4".into());

    let result = assess_archive_playback(&media).unwrap();
    assert!(result.can_play);
    assert_eq!(result.mode, "direct");
}

#[test]
fn assess_zip_playback_deflate_method_8_needs_extraction() {
    let mut media = default_media_item();
    media.parent_zip_id = Some("file123".into());
    media.archive_format = Some("zip".into());
    media.zip_compression_method = Some(8);

    let result = assess_archive_playback(&media).unwrap();
    assert!(result.can_play);
    assert_eq!(result.mode, "extract");
}

#[test]
fn assess_zip_playback_unsupported_method() {
    let mut media = default_media_item();
    media.parent_zip_id = Some("file123".into());
    media.archive_format = Some("zip".into());
    media.zip_compression_method = Some(99);

    let result = assess_archive_playback(&media).unwrap();
    assert!(!result.can_play);
    assert_eq!(result.mode, "unsupported");
}

#[test]
fn assess_zip_playback_default_method_0_missing_offsets_falls_back() {
    // method defaults to 0 but no offsets -> build_archive_stream_info fails
    let mut media = default_media_item();
    media.parent_zip_id = Some("file123".into());
    media.archive_format = Some("zip".into());
    media.zip_compression_method = None; // defaults to 0
                                         // no offsets set, so build_archive_stream_info returns Err -> method 0 fallback
    let result = assess_archive_playback(&media).unwrap();
    // method is 0 but stream info fails, so falls through to "unsupported"
    assert!(!result.can_play);
    assert_eq!(result.mode, "unsupported");
}

#[test]
fn assess_tar_playback_with_valid_offsets_direct() {
    let mut media = default_media_item();
    media.parent_zip_id = Some("file123".into());
    media.archive_format = Some("tar".into());
    media.zip_compression_method = Some(0);
    media.zip_data_start_offset = Some(0);
    media.zip_compressed_size = Some(500);
    media.zip_entry_path = Some("video.mkv".into());

    let result = assess_archive_playback(&media).unwrap();
    assert!(result.can_play);
    assert_eq!(result.mode, "direct");
}

#[test]
fn assess_tar_playback_without_offsets_extract() {
    let mut media = default_media_item();
    media.parent_zip_id = Some("file123".into());
    media.archive_format = Some("tar".into());
    media.zip_compression_method = Some(-2);

    let result = assess_archive_playback(&media).unwrap();
    assert!(result.can_play);
    assert_eq!(result.mode, "extract");
}

#[test]
fn assess_rar_playback_with_valid_offsets_direct() {
    let mut media = default_media_item();
    media.parent_zip_id = Some("file123".into());
    media.archive_format = Some("rar".into());
    media.zip_compression_method = Some(0);
    media.zip_data_start_offset = Some(0);
    media.zip_compressed_size = Some(500);
    media.zip_entry_path = Some("video.mkv".into());

    let result = assess_archive_playback(&media).unwrap();
    assert!(result.can_play);
    assert_eq!(result.mode, "direct");
}

#[test]
fn assess_rar_playback_without_offsets_extract() {
    let mut media = default_media_item();
    media.parent_zip_id = Some("file123".into());
    media.archive_format = Some("rar".into());
    media.zip_compression_method = Some(-1);

    let result = assess_archive_playback(&media).unwrap();
    assert!(result.can_play);
    assert_eq!(result.mode, "extract");
}

#[test]
fn archive_filename_for_media_remote_path_uses_format_extension() {
    let mut media = default_media_item();
    media.parent_zip_id = Some("abc".into());
    media.archive_format = Some("rar".into());
    media.file_path = Some("https://drive.google.com/file".into());
    assert_eq!(archive_filename_for_media(&media), "abc.rar");
}

#[test]
fn archive_filename_for_media_local_path_returns_path() {
    let mut media = default_media_item();
    media.parent_zip_id = Some("abc".into());
    media.file_path = Some("/local/path/archive.zip".into());
    assert_eq!(
        archive_filename_for_media(&media),
        "/local/path/archive.zip"
    );
}

#[test]
fn archive_filename_for_media_no_path_defaults() {
    let mut media = default_media_item();
    media.parent_zip_id = Some("xyz".into());
    media.archive_format = Some("tar".into());
    assert_eq!(archive_filename_for_media(&media), "xyz.tar");
}

#[test]
fn archive_filename_for_media_no_zip_id_fallback() {
    let mut media = default_media_item();
    media.archive_format = Some("zip".into());
    assert_eq!(archive_filename_for_media(&media), "archive.zip");
}

#[test]
fn is_gzip_tar_tar_gz() {
    assert!(is_gzip_tar("file.tar.gz"));
}

#[test]
fn is_gzip_tar_tgz() {
    assert!(is_gzip_tar("file.tgz"));
}

#[test]
fn is_gzip_tar_case_insensitive() {
    assert!(is_gzip_tar("FILE.TAR.GZ"));
    assert!(is_gzip_tar("FILE.TGZ"));
}

#[test]
fn is_gzip_tar_plain_tar() {
    assert!(!is_gzip_tar("file.tar"));
}

#[test]
fn is_gzip_tar_zip() {
    assert!(!is_gzip_tar("file.zip"));
}

#[test]
fn is_gzip_tar_empty() {
    assert!(!is_gzip_tar(""));
}

#[test]
fn safe_filename_alphanumeric_passthrough() {
    assert_eq!(safe_filename("abc123"), "abc123");
}

#[test]
fn safe_filename_allowed_chars() {
    assert_eq!(safe_filename("file-name_v2.ext"), "file-name_v2.ext");
}

#[test]
fn safe_filename_replaces_special_chars() {
    assert_eq!(safe_filename("a b/c\\d:e"), "a_b_c_d_e");
}

#[test]
fn safe_filename_empty() {
    assert_eq!(safe_filename(""), "");
}

#[test]
fn safe_filename_unicode_replaced() {
    assert_eq!(safe_filename("日本語"), "___");
}

#[test]
fn archive_format_for_media_uppercase_tar() {
    let mut media = default_media_item();
    media.archive_format = Some("TAR".into());
    // "TAR" != "tar", so it falls to default Zip
    assert_eq!(archive_format_for_media(&media), ArchiveFormat::Zip);
}

#[test]
fn archive_format_for_media_uppercase_rar() {
    let mut media = default_media_item();
    media.archive_format = Some("RAR".into());
    assert_eq!(archive_format_for_media(&media), ArchiveFormat::Zip);
}

#[test]
fn build_archive_stream_info_zip_calls_zip_manager() {
    let mut media = default_media_item();
    media.archive_format = Some("zip".into());
    // No zip_file_id set -> build_zip_stream_info should return Err
    let result = build_archive_stream_info(&media);
    assert!(result.is_err());
}

#[test]
fn build_archive_stream_info_tar_no_parent_zip_id() {
    let mut media = default_media_item();
    media.archive_format = Some("tar".into());
    // parent_zip_id is None -> should error
    let result = build_archive_stream_info(&media);
    assert!(result.is_err());
    assert!(result.unwrap_err().contains("Archive file ID not found"));
}

#[test]
fn build_archive_stream_info_tar_compressed_method_nonzero() {
    let mut media = default_media_item();
    media.archive_format = Some("tar".into());
    media.parent_zip_id = Some("file1".into());
    media.zip_compression_method = Some(8);
    let result = build_archive_stream_info(&media);
    assert!(result.is_err());
    assert!(result.unwrap_err().contains("requires extraction"));
}

#[test]
fn build_archive_stream_info_tar_store_method_success() {
    let mut media = default_media_item();
    media.archive_format = Some("tar".into());
    media.parent_zip_id = Some("file1".into());
    media.zip_compression_method = Some(0);
    media.zip_data_start_offset = Some(0);
    media.zip_compressed_size = Some(500);
    media.zip_entry_path = Some("video.mp4".into());
    let result = build_archive_stream_info(&media);
    assert!(result.is_ok());
    let info = result.unwrap();
    assert_eq!(info.zip_file_id, "file1");
    assert_eq!(info.byte_start, 0);
    assert_eq!(info.byte_end, 499);
}

#[test]
fn build_archive_stream_info_tar_missing_data_offset() {
    let mut media = default_media_item();
    media.archive_format = Some("tar".into());
    media.parent_zip_id = Some("file1".into());
    media.zip_compression_method = Some(0);
    // no data_start_offset
    let result = build_archive_stream_info(&media);
    assert!(result.is_err());
    assert!(result
        .unwrap_err()
        .contains("does not support direct streaming"));
}

#[test]
fn build_archive_stream_info_tar_missing_compressed_size() {
    let mut media = default_media_item();
    media.archive_format = Some("tar".into());
    media.parent_zip_id = Some("file1".into());
    media.zip_compression_method = Some(0);
    media.zip_data_start_offset = Some(100);
    // no compressed_size
    let result = build_archive_stream_info(&media);
    assert!(result.is_err());
    assert!(result.unwrap_err().contains("size not available"));
}

#[test]
fn build_archive_stream_info_rar_store_method_success() {
    let mut media = default_media_item();
    media.archive_format = Some("rar".into());
    media.parent_zip_id = Some("file1".into());
    media.zip_compression_method = Some(0);
    media.zip_data_start_offset = Some(100);
    media.zip_compressed_size = Some(800);
    media.file_path = Some("https://example.com/file".into());
    let result = build_archive_stream_info(&media);
    assert!(result.is_ok());
    let info = result.unwrap();
    assert_eq!(info.byte_start, 100);
    assert_eq!(info.byte_end, 899);
}

#[test]
fn archive_format_for_media_zip_string() {
    let mut media = default_media_item();
    media.archive_format = Some("zip".into());
    assert_eq!(archive_format_for_media(&media), ArchiveFormat::Zip);
}

#[test]
fn detect_mime_overrides_extension() {
    // name ends with .rar but mime says zip
    assert_eq!(
        detect_archive_format("file.rar", Some("application/zip")),
        Some(ArchiveFormat::Zip)
    );
}

#[test]
fn detect_tar_mime_not_matching_gzip_extension() {
    // name is .tar.gz but mime is generic
    assert_eq!(
        detect_archive_format("file.tar.gz", Some("text/plain")),
        Some(ArchiveFormat::Tar)
    );
}

#[test]
fn constants_are_sensible() {
    assert_eq!(DRIVE_API_BASE, "https://www.googleapis.com/drive/v3");
    assert_eq!(ARCHIVE_STREAM_BUFFER_BYTES, 1024 * 1024);
    assert_eq!(RAR_HEADER_PREFETCH_BYTES, 1024 * 1024);
}
