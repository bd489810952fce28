use slasshyvault::config::{
    default_cloud_cache_expiry_hours, default_cloud_cache_max_mb,
    default_cloud_scan_interval_minutes, default_notifications_enabled,
    default_zip_cache_expiry_days, default_zip_cache_max_gb, default_zip_indexing_enabled,
    get_bundled_mpv_dir, get_bundled_mpv_download_url, get_bundled_mpv_path,
    get_bundled_mpv_rar_temp_path, validate_executable_path, AddonSource, Config, PlayerMode,
    BUNDLED_MPV_RAR_FILENAME, BUNDLED_MPV_RAR_TEMP_NAME, BUNDLED_MPV_REPO_PATH, GITHUB_BRANCH,
    GITHUB_REPO, MPV_SEARCH_PATHS,
};
use std::path::Path;

const APP_DATA: &str = "/home/user/.local/share/slasshyvault";

#[test]
fn get_bundled_mpv_download_url_format() {
    let url = get_bundled_mpv_download_url();
    assert!(url.starts_with("https://media.githubusercontent.com/media/"));
    assert!(url.contains(GITHUB_REPO));
    assert!(url.contains(GITHUB_BRANCH));
    assert!(url.contains(BUNDLED_MPV_REPO_PATH));
    assert_eq!(
        url,
        "https://media.githubusercontent.com/media/SlasshyOverhere/SlasshyVault/main/mpv-player/slasshyvault-mpv.rar"
    );
}

#[test]
fn get_bundled_mpv_dir_contains_mpv_bundled() {
    let dir = get_bundled_mpv_dir(APP_DATA);
    assert!(Path::new(&dir).ends_with("mpv_bundled"));
}

#[test]
fn get_bundled_mpv_rar_temp_path_contains_rar_name() {
    let path = get_bundled_mpv_rar_temp_path(APP_DATA);
    assert!(Path::new(&path).ends_with(BUNDLED_MPV_RAR_TEMP_NAME));
    // Parent should be the bundled dir
    let dir = get_bundled_mpv_dir(APP_DATA);
    assert_eq!(Path::new(&path).parent(), Some(Path::new(&dir)));
}

#[test]
fn player_mode_default_is_external() {
    assert_eq!(PlayerMode::default(), PlayerMode::External);
}

#[test]
fn player_mode_debug_clone() {
    let mode = PlayerMode::External;
    let cloned = mode.clone();
    assert_eq!(mode, cloned);
    let debug = format!("{:?}", mode);
    assert_eq!(debug, "External");
}

#[test]
fn config_default_values() {
    let cfg = Config::default();
    assert!(cfg.mpv_path.is_none());
    assert!(cfg.vlc_path.is_none());
    assert!(cfg.ffprobe_path.is_none());
    assert!(cfg.ffmpeg_path.is_none());
    assert!(cfg.tmdb_api_key.is_none());
    assert!(cfg.omdb_api_key.is_none());
    assert!(!cfg.cloud_cache_enabled);
    assert!(cfg.cloud_cache_dir.is_none());
    assert_eq!(cfg.cloud_cache_max_mb, 1024);
    assert_eq!(cfg.cloud_cache_expiry_hours, 24);
    assert_eq!(cfg.cloud_scan_interval_minutes, 5);
    assert!(cfg.zip_indexing_enabled);
    assert!(cfg.zip_cache_dir.is_none());
    assert_eq!(cfg.zip_cache_max_gb, 20);
    assert_eq!(cfg.zip_cache_expiry_days, 7);
    assert!(cfg.notifications_enabled);
    assert!(cfg.dev_backend_url.is_none());
    assert_eq!(cfg.player_mode, PlayerMode::External);
    assert!(cfg.addon_url.is_none());
    assert!(cfg.addon_sources.is_empty());
}

#[test]
fn default_functions_return_expected_values() {
    assert_eq!(default_cloud_cache_max_mb(), 1024);
    assert_eq!(default_cloud_cache_expiry_hours(), 24);
    assert_eq!(default_cloud_scan_interval_minutes(), 5);
    assert!(default_zip_indexing_enabled());
    assert_eq!(default_zip_cache_max_gb(), 20);
    assert_eq!(default_zip_cache_expiry_days(), 7);
    assert!(default_notifications_enabled());
}

#[test]
fn validate_empty_path_returns_ok() {
    assert!(validate_executable_path("", Ok(None), "mpv").is_ok());
}

#[test]
fn validate_nonexistent_path_returns_err() {
    // resolving the path failed, with the system's message
    let result = validate_executable_path(
        "Z:\\nonexistent\\mpv.exe",
        Err("No such file or directory (os error 2)".to_string()),
        "mpv",
    );
    assert!(result.is_err());
    assert!(result.unwrap_err().contains("Invalid executable path"));
}

#[test]
fn constants_are_correct() {
    assert_eq!(BUNDLED_MPV_RAR_FILENAME, "slasshyvault-mpv.rar");
    assert_eq!(BUNDLED_MPV_RAR_TEMP_NAME, "slasshyvault-mpv.rar");
    assert_eq!(GITHUB_REPO, "SlasshyOverhere/SlasshyVault");
    assert_eq!(GITHUB_BRANCH, "main");
    assert_eq!(BUNDLED_MPV_REPO_PATH, "mpv-player/slasshyvault-mpv.rar");
}

#[test]
fn mpv_search_paths_not_empty() {
    assert!(!MPV_SEARCH_PATHS.is_empty());
    // All entries should contain "mpv"
    for path in MPV_SEARCH_PATHS {
        assert!(
            path.to_lowercase().contains("mpv"),
            "Search path missing 'mpv': {}",
            path
        );
    }
    // All entries should end with mpv.exe
    for path in MPV_SEARCH_PATHS {
        assert!(
            path.ends_with("mpv.exe"),
            "Search path doesn't end with mpv.exe: {}",
            path
        );
    }
}

#[test]
fn get_bundled_mpv_path_always_returns_path() {
    let dir = get_bundled_mpv_dir(APP_DATA);
    // the directory is missing, or present without a player inside
    let path = get_bundled_mpv_path(&dir, false, None, "mpv.exe");
    // Should always return a PathBuf ending with mpv.exe
    assert!(Path::new(&path).ends_with("mpv.exe"));
    let path = get_bundled_mpv_path(&dir, true, None, "mpv.exe");
    assert!(Path::new(&path).ends_with("mpv.exe"));
}

#[test]
fn bundled_path_keeps_only_a_found_mpv_exe() {
    let dir = "/data/mpv_bundled";
    let found = Some("/data/mpv_bundled/sub/mpv.exe".to_string());
    assert_eq!(get_bundled_mpv_path(dir, true, found.clone(), "mpv.exe"), "/data/mpv_bundled/sub/mpv.exe");
    // a found file is ignored while the directory is missing
    assert_eq!(get_bundled_mpv_path(dir, false, found, "mpv.exe"), "/data/mpv_bundled/mpv.exe");
    // a file with another name is not the player
    let other = Some("/data/mpv_bundled/slasshyvault-mpv.exe".to_string());
    assert_eq!(get_bundled_mpv_path(dir, true, other, "mpv.exe"), "/data/mpv_bundled/mpv.exe");
    let upper = Some("/data/mpv_bundled/MPV.EXE".to_string());
    assert_eq!(get_bundled_mpv_path(dir, true, upper, "mpv.exe"), "/data/mpv_bundled/mpv.exe");
}

#[test]
fn config_clone() {
    let cfg = Config::default();
    let cloned = cfg.clone();
    assert_eq!(cfg.mpv_path, cloned.mpv_path);
    assert_eq!(cfg.cloud_cache_max_mb, cloned.cloud_cache_max_mb);
    assert_eq!(cfg.player_mode, cloned.player_mode);
}

#[test]
fn config_debug_output() {
    let cfg = Config::default();
    let debug = format!("{:?}", cfg);
    assert!(debug.contains("Config"));
    assert!(debug.contains("mpv_path"));
}

#[test]
fn addon_source_clone_and_debug() {
    let src = AddonSource {
        id: "id1".to_string(),
        name: "name1".to_string(),
        url: "http://url1".to_string(),
        enabled: true,
        is_default: false,
        binary_path: None,
    };
    let cloned = src.clone();
    assert_eq!(cloned.id, "id1");
    let debug = format!("{:?}", src);
    assert!(debug.contains("AddonSource"));
}
