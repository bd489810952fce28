use slasshyvault::download::{
    build_chunk_ranges, default_parallel_chunk_bytes, default_parallel_concurrency,
    part_file_path, sanitize_download_filename, LocalCopyRequest, ParallelDownloadRequest,
};
use slasshyvault::paths::{default_downloads_dir, download_jobs_path};
use std::path::Path;

#[test]
fn sanitize_normal_name() {
    assert_eq!(
        sanitize_download_filename("movie.mp4", "fallback"),
        "movie.mp4"
    );
}

#[test]
fn sanitize_preserves_allowed_chars() {
    assert_eq!(
        sanitize_download_filename("my file (copy)-v1.0.mkv", "fb"),
        "my file (copy)-v1.0.mkv"
    );
}

#[test]
fn sanitize_replaces_special_chars() {
    assert_eq!(
        sanitize_download_filename("file:name*with?bad|chars", "fb"),
        "file_name_with_bad_chars"
    );
}

#[test]
fn sanitize_replaces_path_separators() {
    // dots are allowed chars, so ".." survives; "/" becomes "_"
    assert_eq!(
        sanitize_download_filename("../../../etc/passwd", "fb"),
        "_.._.._etc_passwd"
    );
}

#[test]
fn sanitize_replaces_backslash_traversal() {
    // dots survive, backslash becomes "_", leading dots trimmed by trim_matches('.')
    assert_eq!(
        sanitize_download_filename("..\\..\\windows\\system32", "fb"),
        "_.._windows_system32"
    );
}

#[test]
fn sanitize_empty_returns_fallback() {
    assert_eq!(
        sanitize_download_filename("", "default_file"),
        "default_file"
    );
}

#[test]
fn sanitize_all_replaced_chars_become_underscores() {
    // "/" ":" "*" "?" all become "_", underscores are not trimmed
    assert_eq!(
        sanitize_download_filename("///:::***???", "fallback"),
        "____________"
    );
}

#[test]
fn sanitize_only_whitespace_returns_fallback() {
    assert_eq!(sanitize_download_filename("   ", "fallback"), "fallback");
}

#[test]
fn sanitize_trims_whitespace_and_dots() {
    assert_eq!(sanitize_download_filename("  ...file...  ", "fb"), "file");
}

#[test]
fn sanitize_long_name_preserved() {
    let long = "a".repeat(500);
    let result = sanitize_download_filename(&long, "fb");
    assert_eq!(result.len(), 500);
    assert_eq!(result, long);
}

#[test]
fn sanitize_unicode_replaced() {
    // 7 unicode chars, each becomes "_"
    assert_eq!(
        sanitize_download_filename("日本語ファイル", "fb"),
        "_______"
    );
}

#[test]
fn sanitize_only_dots_returns_fallback() {
    assert_eq!(sanitize_download_filename("...", "fb"), "fb");
}

#[test]
fn default_downloads_dir_returns_non_empty_path() {
    let dir = default_downloads_dir(Some("/home/user/Downloads"), "/home/user/.local/share/slasshyvault");
    assert!(!dir.is_empty());
    let dir = default_downloads_dir(None, "/home/user/.local/share/slasshyvault");
    assert!(!dir.is_empty());
}

#[test]
fn default_downloads_dir_ends_with_slasshy_vault() {
    let dir = default_downloads_dir(Some("/home/user/Downloads"), "/data");
    assert_eq!(Path::new(&dir).file_name().unwrap(), "SlasshyVault");
    let dir = default_downloads_dir(None, "/data");
    assert_eq!(Path::new(&dir).file_name().unwrap(), "SlasshyVault");
}

#[test]
fn default_chunk_bytes_is_8mb() {
    assert_eq!(default_parallel_chunk_bytes(), 8 * 1024 * 1024);
}

#[test]
fn default_concurrency_is_8() {
    assert_eq!(default_parallel_concurrency(), 8);
}

#[test]
fn chunk_ranges_exact_division() {
    let ranges = build_chunk_ranges(16, 4);
    assert_eq!(ranges, vec![(0, 3), (4, 7), (8, 11), (12, 15)]);
}

#[test]
fn chunk_ranges_with_remainder() {
    let ranges = build_chunk_ranges(10, 4);
    assert_eq!(ranges, vec![(0, 3), (4, 7), (8, 9)]);
}

#[test]
fn chunk_ranges_single_chunk() {
    let ranges = build_chunk_ranges(100, 200);
    assert_eq!(ranges, vec![(0, 99)]);
}

#[test]
fn chunk_ranges_zero_bytes() {
    let ranges = build_chunk_ranges(0, 1024);
    assert!(ranges.is_empty());
}

#[test]
fn chunk_ranges_one_byte() {
    let ranges = build_chunk_ranges(1, 1024);
    assert_eq!(ranges, vec![(0, 0)]);
}

#[test]
fn chunk_ranges_exact_boundary() {
    let ranges = build_chunk_ranges(8, 8);
    assert_eq!(ranges, vec![(0, 7)]);
}

#[test]
fn parallel_download_request_clone() {
    let req = ParallelDownloadRequest {
        media_id: 1,
        title: "t".into(),
        file_name: "f".into(),
        target_path: "/f".to_string(),
        file_id: "fid".into(),
        range_start: 0,
        total_bytes: 100,
        source_kind: "gdrive".into(),
        chunk_bytes: 1024,
        concurrency: 4,
    };
    let cloned = req.clone();
    assert_eq!(cloned.media_id, 1);
    assert_eq!(cloned.file_id, "fid");
    assert_eq!(cloned.concurrency, 4);
}

#[test]
fn local_copy_request_clone() {
    let req = LocalCopyRequest {
        media_id: 2,
        title: "t".into(),
        file_name: "f".into(),
        target_path: "/dst".to_string(),
        source_path: "/src".to_string(),
        total_bytes: 500,
        source_kind: "local".into(),
    };
    let cloned = req.clone();
    assert_eq!(cloned.source_path, "/src".to_string());
    assert_eq!(cloned.total_bytes, 500);
}

#[test]
fn chunk_ranges_chunk_size_one() {
    let ranges = build_chunk_ranges(3, 1);
    assert_eq!(ranges, vec![(0, 0), (1, 1), (2, 2)]);
}

#[test]
fn chunk_ranges_total_bytes_one() {
    let ranges = build_chunk_ranges(1, 1);
    assert_eq!(ranges, vec![(0, 0)]);
}

#[test]
fn chunk_ranges_large_total_small_chunk() {
    let ranges = build_chunk_ranges(1000, 100);
    assert_eq!(ranges.len(), 10);
    assert_eq!(ranges[0], (0, 99));
    assert_eq!(ranges[9], (900, 999));
}

#[test]
fn chunk_ranges_two_byte_total() {
    let ranges = build_chunk_ranges(2, 1);
    assert_eq!(ranges, vec![(0, 0), (1, 1)]);
}

#[test]
fn parallel_download_request_field_values() {
    let req = ParallelDownloadRequest {
        media_id: 42,
        title: "Big Movie".into(),
        file_name: "movie.mkv".into(),
        target_path: "/downloads/movie.mkv".to_string(),
        file_id: "gdrive-file-id-123".into(),
        range_start: 1024,
        total_bytes: 1024 * 1024 * 100,
        source_kind: "gdrive".into(),
        chunk_bytes: 4 * 1024 * 1024,
        concurrency: 4,
    };
    assert_eq!(req.media_id, 42);
    assert_eq!(req.title, "Big Movie");
    assert_eq!(req.file_name, "movie.mkv");
    assert_eq!(req.file_id, "gdrive-file-id-123");
    assert_eq!(req.range_start, 1024);
    assert_eq!(req.total_bytes, 1024 * 1024 * 100);
    assert_eq!(req.source_kind, "gdrive");
    assert_eq!(req.chunk_bytes, 4 * 1024 * 1024);
    assert_eq!(req.concurrency, 4);
}

#[test]
fn download_jobs_path_contains_filename() {
    let path = download_jobs_path("/home/user/.local/share/slasshyvault");
    assert_eq!(Path::new(&path).file_name().unwrap(), "download_jobs.json");
}

#[test]
fn part_files_sit_beside_the_target() {
    assert_eq!(part_file_path("/dl", "movie.mkv"), "/dl/movie.mkv.part");
    assert_eq!(part_file_path("/dl", "movie"), "/dl/movie.download.part");
    // a name that names no file leaves the target path as it is
    assert_eq!(part_file_path("/dl", ""), "/dl/");
    assert_eq!(part_file_path("/dl", ".."), "/dl/..");
}
