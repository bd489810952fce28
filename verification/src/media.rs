//! Records of the media library that the archive and playback logic reads.
use vstd::prelude::*;

verus! {

/// A row of the media library: a movie, a show, or an episode (possibly inside
/// an archive). The playback figures that the application keeps as floating
/// point numbers (duration, resume position, progress) are not part of this
/// record: no logic of the library reads them.
#[derive(Debug, Clone)]
pub struct MediaItem {
    pub id: i64,
    pub title: String,
    pub year: Option<i32>,
    pub overview: Option<String>,
    pub cast_names: Option<String>,
    pub director: Option<String>,
    pub poster_path: Option<String>,
    pub file_path: Option<String>,
    pub media_type: String,
    pub last_watched: Option<String>,
    pub season_number: Option<i32>,
    pub episode_number: Option<i32>,
    pub parent_id: Option<i64>,
    pub tmdb_id: Option<String>,
    pub imdb_id: Option<String>,
    pub episode_title: Option<String>,
    pub still_path: Option<String>,
    pub is_cloud: Option<bool>,
    pub cloud_file_id: Option<String>,
    pub cloud_folder_id: Option<String>,
    pub archive_format: Option<String>,
    pub parent_zip_id: Option<String>,
    pub zip_entry_path: Option<String>,
    pub zip_local_header_offset: Option<i64>,
    pub zip_data_start_offset: Option<i64>,
    pub zip_compressed_size: Option<i64>,
    pub zip_uncompressed_size: Option<i64>,
    pub zip_crc32: Option<String>,
    pub zip_compression_method: Option<i64>,
    pub file_size_bytes: Option<i64>,
    pub ddl_source_id: Option<String>,
    pub archive_playback_can_play: Option<bool>,
    pub archive_playback_mode: Option<String>,
    pub archive_playback_message: Option<String>,
    pub archive_playback_details: Option<Vec<String>>,
}

/// What a file name was recognised as.
#[derive(Debug, Clone, Copy, PartialEq, Eq)]
pub enum MediaParseType {
    Movie,
    TvEpisode,
}

/// The title and numbering recognised in a file name.
#[derive(Debug, Clone)]
pub struct ParsedMedia {
    pub title: String,
    pub year: Option<i32>,
    pub media_type: MediaParseType,
    pub season: Option<i32>,
    pub episode: Option<i32>,
    pub episode_end: Option<i32>,
}

/// How the video entries of an archive are compressed.
#[derive(Debug, Clone, Copy, PartialEq, Eq)]
pub enum ZipCompressionType {
    Store,
    Deflate,
    Other,
}

/// The archive-level facts recorded after an archive was analysed.
#[derive(Debug, Clone)]
pub struct ZipArchiveInfo {
    pub zip_file_id: String,
    pub filename: String,
    pub archive_format: String,
    pub file_size_bytes: u64,
    pub compression_type: ZipCompressionType,
    pub central_dir_offset: u64,
    pub central_dir_size: u64,
    pub total_entries: usize,
    pub video_entries: usize,
}

/// A byte range of an archive on Drive that a player can stream directly.
#[derive(Debug, Clone)]
pub struct ZipStreamInfo {
    pub zip_file_id: String,
    pub byte_start: u64,
    pub byte_end: u64,
    pub content_type: String,
}

/// Where extracted archive entries are cached, and for how long.
#[derive(Debug, Clone)]
pub struct ZipCacheConfig {
    pub cache_dir: String,
    pub max_size_bytes: u64,
    pub expiry_days: u32,
}

} // verus!
