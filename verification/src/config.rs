//! Settings: their defaults and bounds, the bundled MPV player's location and
//! download URL, and the rule that an executable path names the expected
//! program. Reading and writing the settings file is the application's part.
use vstd::prelude::*;
use crate::paths::{joined, join_path};
use crate::text::{chars_equal, to_lowercase, unicode_lowercase};

verus! {

/// File name of the bundled MPV archive in the repository.
pub const BUNDLED_MPV_RAR_FILENAME: &'static str = "slasshyvault-mpv.rar";

/// File name of the downloaded MPV archive before extraction.
pub const BUNDLED_MPV_RAR_TEMP_NAME: &'static str = "slasshyvault-mpv.rar";

/// Repository slug and branch that host the bundled MPV archive.
pub const GITHUB_REPO: &'static str = "SlasshyOverhere/SlasshyVault";

pub const GITHUB_BRANCH: &'static str = "main";

/// Path of the bundled MPV archive inside the repository.
pub const BUNDLED_MPV_REPO_PATH: &'static str = "mpv-player/slasshyvault-mpv.rar";

/// Places where MPV is commonly installed on Windows; `*` stands for any
/// user name.
pub const MPV_SEARCH_PATHS: [&'static str; 13] = [
    "C:\\Program Files\\mpv\\mpv.exe",
    "C:\\Program Files (x86)\\mpv\\mpv.exe",
    "C:\\Program Files\\mpv.net\\mpv.exe",
    "C:\\Program Files (x86)\\mpv.net\\mpv.exe",
    "C:\\Users\\*\\scoop\\apps\\mpv\\current\\mpv.exe",
    "C:\\Users\\*\\scoop\\shims\\mpv.exe",
    "C:\\ProgramData\\chocolatey\\bin\\mpv.exe",
    "C:\\mpv\\mpv.exe",
    "C:\\Tools\\mpv\\mpv.exe",
    "D:\\mpv\\mpv.exe",
    "D:\\Tools\\mpv\\mpv.exe",
    "C:\\Users\\*\\AppData\\Local\\Programs\\mpv\\mpv.exe",
    "C:\\Users\\*\\mpv\\mpv.exe",
];

/// The URL of the bundled MPV archive, served through Git LFS.
pub open spec fn bundled_mpv_url() -> Seq<char> {
    "https://media.githubusercontent.com/media/"@ + GITHUB_REPO@ + "/"@ + GITHUB_BRANCH@ + "/"@
        + BUNDLED_MPV_REPO_PATH@
}

pub fn get_bundled_mpv_download_url() -> (r: String)
    ensures
        r@ == bundled_mpv_url(),
{
    let mut r = "https://media.githubusercontent.com/media/".to_owned();
    r.append(GITHUB_REPO);
    r.append("/");
    r.append(GITHUB_BRANCH);
    r.append("/");
    r.append(BUNDLED_MPV_REPO_PATH);
    r
}

/// Where the bundled MPV is extracted, inside the application data directory.
pub fn get_bundled_mpv_dir(app_data_dir: &str) -> (r: String)
    ensures
        r@ == joined(app_data_dir@, "mpv_bundled"@),
{
    join_path(app_data_dir, "mpv_bundled")
}

/// Where the bundled MPV archive is downloaded before extraction.
pub fn get_bundled_mpv_rar_temp_path(app_data_dir: &str) -> (r: String)
    ensures
        r@ == joined(joined(app_data_dir@, "mpv_bundled"@), BUNDLED_MPV_RAR_TEMP_NAME@),
{
    let dir = get_bundled_mpv_dir(app_data_dir);
    join_path(dir.as_str(), BUNDLED_MPV_RAR_TEMP_NAME)
}

/// The bundled player's path: the executable found inside the bundled
/// directory when the directory exists, a search found one, and its file
/// name is exactly `exe_name`; else `exe_name` directly inside the
/// directory. Either way the path's last component is `exe_name`.
pub fn get_bundled_mpv_path(bundled_dir: &str, dir_exists: bool, found: Option<String>, exe_name: &str) -> (r: String)
    ensures
        r@ == (match found {
            Some(f) => if dir_exists && crate::archive::last_segment(f@) == exe_name@ {
                f@
            } else {
                joined(bundled_dir@, exe_name@)
            },
            None => joined(bundled_dir@, exe_name@),
        }),
        exe_name@.len() > 0 && !exe_name@.contains('/') ==> crate::archive::last_segment(r@) == exe_name@,
{
    proof {
        lemma_joined_last_segment(bundled_dir@, exe_name@);
    }
    if !dir_exists {
        return join_path(bundled_dir, exe_name);
    }
    match found {
        Some(f) => {
            let chars = crate::text::chars_of(f.as_str());
            let start: usize = match crate::archive::last_position(&chars, '/') {
                Some(k) => k + 1,
                None => 0,
            };
            proof {
                crate::archive::lemma_last_pos(chars@, '/');
            }
            let name = crate::text::sub_chars(&chars, start, chars.len());
            if vec_equal(&name, &crate::text::chars_of(exe_name)) {
                f
            } else {
                join_path(bundled_dir, exe_name)
            }
        },
        None => join_path(bundled_dir, exe_name),
    }
}

/// Appending text without `/` leaves the last `/` where it was.
proof fn lemma_last_pos_append(p: Seq<char>, n: Seq<char>)
    requires
        !n.contains('/'),
    ensures
        crate::archive::last_pos(p + n, '/') == crate::archive::last_pos(p, '/'),
    decreases n.len(),
{
    if n.len() > 0 {
        let m = n.drop_last();
        assert(!m.contains('/')) by {
            if m.contains('/') {
                let i = choose|i: int| 0 <= i < m.len() && m[i] == '/';
                assert(n[i] == '/');
            }
        }
        assert((p + n).drop_last() =~= p + m);
        assert((p + n).last() == n.last());
        assert(n[n.len() - 1] != '/');
        lemma_last_pos_append(p, m);
    } else {
        assert(p + n =~= p);
    }
}

/// The last component of `base` joined with a plain file name is that name.
proof fn lemma_joined_last_segment(base: Seq<char>, name: Seq<char>)
    ensures
        name.len() > 0 && !name.contains('/') ==> crate::archive::last_segment(joined(base, name)) == name,
{
    if name.len() > 0 && !name.contains('/') {
        assert(name[0] != '/');
        let e: Seq<char> = Seq::empty();
        if base.len() == 0 {
            lemma_last_pos_append(e, name);
            assert(e + name =~= name);
        } else if base.last() == '/' {
            lemma_last_pos_append(base, name);
            let t = base + name;
            assert(t.subrange(base.len() as int, t.len() as int) =~= name);
        } else {
            let p = base + "/"@;
            reveal_strlit("/");
            assert(p.last() == '/');
            lemma_last_pos_append(p, name);
            let t = p + name;
            assert(t.subrange(p.len() as int, t.len() as int) =~= name);
        }
    }
}

/// A file found while searching the bundled directory is the player when its
/// name, split as `Path` splits it, has stem `mpv` or `slasshyvault-mpv` and
/// extension `exe` (all in any ASCII case), on Windows; or when its whole
/// name is `mpv` or `slasshyvault-mpv` and it has no extension, elsewhere.
pub open spec fn is_bundled_player_name(file_name: Seq<char>, windows: bool) -> bool {
    let parts = crate::paths::name_parts(file_name);
    if windows {
        let stem = crate::text::lower_seq(parts.0);
        &&& stem == "mpv"@ || stem == "slasshyvault-mpv"@
        &&& parts.1 matches Some(e) && crate::text::lower_seq(e) == "exe"@
    } else {
        &&& file_name == "mpv"@ || file_name == "slasshyvault-mpv"@
        &&& parts.1 is None
    }
}

pub fn bundled_player_name_matches(file_name: &str, windows: bool) -> (r: bool)
    ensures
        r == is_bundled_player_name(file_name@, windows),
{
    let (stem, ext) = crate::paths::split_file_name(file_name);
    if windows {
        let s = crate::text::lower_chars(stem.as_str());
        let stem_ok = chars_equal(&s, "mpv") || chars_equal(&s, "slasshyvault-mpv");
        match ext {
            Some(e) => stem_ok && chars_equal(&crate::text::lower_chars(e.as_str()), "exe"),
            None => false,
        }
    } else {
        let n = crate::text::chars_of(file_name);
        (chars_equal(&n, "mpv") || chars_equal(&n, "slasshyvault-mpv")) && ext.is_none()
    }
}

/// The verdict on an executable path. An empty path is accepted (nothing is
/// configured). Otherwise the path must resolve (`canonical_stem` is the
/// error text when it did not, or the file stem of the resolved path, none
/// when that stem is not valid text) and the stem, lower-cased, must equal
/// the expected name lower-cased; `slasshyvault-mpv` also passes for `mpv`.
pub open spec fn executable_verdict(
    path: Seq<char>,
    canonical_stem: Result<Option<Seq<char>>, Seq<char>>,
    expected: Seq<char>,
) -> Result<(), Seq<char>> {
    if path.len() == 0 {
        Ok(())
    } else {
        match canonical_stem {
            Err(e) => Err("Invalid executable path: "@ + e),
            Ok(None) => Err("Invalid executable path: "@ + path),
            Ok(Some(stem)) => {
                let s = unicode_lowercase(stem);
                let x = unicode_lowercase(expected);
                if s == x || (x == "mpv"@ && s == "slasshyvault-mpv"@) {
                    Ok(())
                } else {
                    Err(
                        "Security violation: Executable name must be '"@ + expected + "' or '"@
                            + expected + ".exe', but got '"@ + stem + "'"@,
                    )
                }
            },
        }
    }
}

pub open spec fn stem_view(c: Result<Option<String>, String>) -> Result<Option<Seq<char>>, Seq<char>> {
    match c {
        Err(e) => Err(e@),
        Ok(None) => Ok(None),
        Ok(Some(s)) => Ok(Some(s@)),
    }
}

/// Checks that an executable path names the expected program, so that a
/// configured path cannot launch some other binary.
pub fn validate_executable_path(
    path: &str,
    canonical_stem: Result<Option<String>, String>,
    expected_name: &str,
) -> (r: Result<(), String>)
    ensures
        match r {
            Ok(()) => executable_verdict(path@, stem_view(canonical_stem), expected_name@) is Ok,
            Err(e) => executable_verdict(path@, stem_view(canonical_stem), expected_name@) == Err::<
                (),
                Seq<char>,
            >(e@),
        },
{
    let p = crate::text::chars_of(path);
    if p.len() == 0 {
        return Ok(());
    }
    let stem = match canonical_stem {
        Err(e) => {
            let mut m = "Invalid executable path: ".to_owned();
            m.append(e.as_str());
            return Err(m);
        },
        Ok(None) => {
            let mut m = "Invalid executable path: ".to_owned();
            m.append(path);
            return Err(m);
        },
        Ok(Some(s)) => s,
    };
    let stem_lower = crate::text::chars_of(to_lowercase(stem.as_str()).as_str());
    let expected_lower = crate::text::chars_of(to_lowercase(expected_name).as_str());
    let same = vec_equal(&stem_lower, &expected_lower);
    let valid = same || (chars_equal(&expected_lower, "mpv") && chars_equal(
        &stem_lower,
        "slasshyvault-mpv",
    ));
    if !valid {
        let mut m = "Security violation: Executable name must be '".to_owned();
        m.append(expected_name);
        m.append("' or '");
        m.append(expected_name);
        m.append(".exe', but got '");
        m.append(stem.as_str());
        m.append("'");
        return Err(m);
    }
    Ok(())
}

/// Two character vectors are equal.
pub fn vec_equal(a: &Vec<char>, b: &Vec<char>) -> (r: bool)
    ensures
        r == (a@ == b@),
{
    if a.len() != b.len() {
        return false;
    }
    let mut i: usize = 0;
    while i < a.len()
        invariant
            i <= a.len() == b.len(),
            forall|j: int| 0 <= j < i ==> a@[j] == b@[j],
        decreases a.len() - i,
    {
        if a[i] != b[i] {
            return false;
        }
        i = i + 1;
    }
    assert(a@ =~= b@);
    true
}

/// Which MPV engine plays media.
#[derive(Debug, Clone, PartialEq, Eq, Structural)]
pub enum PlayerMode {
    External,
}

impl Default for PlayerMode {
    fn default() -> (r: Self)
        ensures
            r == PlayerMode::External,
    {
        PlayerMode::External
    }
}

/// A configured add-on source for the External tab.
#[derive(Debug, Clone)]
pub struct AddonSource {
    pub id: String,
    pub name: String,
    pub url: String,
    pub enabled: bool,
    pub is_default: bool,
    /// Path to a local add-on binary.
    pub binary_path: Option<String>,
}

#[derive(Debug, Clone)]
pub struct Config {
    pub mpv_path: Option<String>,
    pub vlc_path: Option<String>,
    pub ffprobe_path: Option<String>,
    pub ffmpeg_path: Option<String>,
    pub tmdb_api_key: Option<String>,
    pub omdb_api_key: Option<String>,
    pub cloud_cache_enabled: bool,
    pub cloud_cache_dir: Option<String>,
    pub cloud_cache_max_mb: u32,
    pub cloud_cache_expiry_hours: u32,
    pub cloud_scan_interval_minutes: u32,
    pub zip_indexing_enabled: bool,
    pub zip_cache_dir: Option<String>,
    pub zip_cache_max_gb: u32,
    pub zip_cache_expiry_days: u32,
    pub notifications_enabled: bool,
    pub dev_backend_url: Option<String>,
    pub player_mode: PlayerMode,
    pub addon_url: Option<String>,
    pub addon_sources: Vec<AddonSource>,
    pub together_relay_url: Option<String>,
    pub together_cf_token: Option<String>,
    pub together_cf_account_id: Option<String>,
}

/// Cloud cache size per movie, in MB.
pub fn default_cloud_cache_max_mb() -> (r: u32)
    ensures
        r == 1024,
{
    1024
}

/// Hours after which cached cloud files are removed.
pub fn default_cloud_cache_expiry_hours() -> (r: u32)
    ensures
        r == 24,
{
    24
}

/// Minutes between automatic cloud scans.
pub fn default_cloud_scan_interval_minutes() -> (r: u32)
    ensures
        r == 5,
{
    5
}

pub fn default_zip_indexing_enabled() -> (r: bool)
    ensures
        r,
{
    true
}

pub fn default_zip_cache_max_gb() -> (r: u32)
    ensures
        r == 20,
{
    20
}

pub fn default_zip_cache_expiry_days() -> (r: u32)
    ensures
        r == 7,
{
    7
}

pub fn default_notifications_enabled() -> (r: bool)
    ensures
        r,
{
    true
}

/// The settings a fresh installation starts with.
pub open spec fn is_default_config(c: Config) -> bool {
    &&& c.mpv_path is None
    &&& c.vlc_path is None
    &&& c.ffprobe_path is None
    &&& c.ffmpeg_path is None
    &&& c.tmdb_api_key is None
    &&& c.omdb_api_key is None
    &&& !c.cloud_cache_enabled
    &&& c.cloud_cache_dir is None
    &&& c.cloud_cache_max_mb == 1024
    &&& c.cloud_cache_expiry_hours == 24
    &&& c.cloud_scan_interval_minutes == 5
    &&& c.zip_indexing_enabled
    &&& c.zip_cache_dir is None
    &&& c.zip_cache_max_gb == 20
    &&& c.zip_cache_expiry_days == 7
    &&& c.notifications_enabled
    &&& c.dev_backend_url is None
    &&& c.player_mode == PlayerMode::External
    &&& c.addon_url is None
    &&& c.addon_sources@.len() == 0
    &&& c.together_relay_url is None
    &&& c.together_cf_token is None
    &&& c.together_cf_account_id is None
}

impl Default for Config {
    fn default() -> (r: Self)
        ensures
            is_default_config(r),
    {
        Config {
            mpv_path: None,
            vlc_path: None,
            ffprobe_path: None,
            ffmpeg_path: None,
            tmdb_api_key: None,
            omdb_api_key: None,
            cloud_cache_enabled: false,
            cloud_cache_dir: None,
            cloud_cache_max_mb: 1024,
            cloud_cache_expiry_hours: 24,
            cloud_scan_interval_minutes: 5,
            zip_indexing_enabled: true,
            zip_cache_dir: None,
            zip_cache_max_gb: 20,
            zip_cache_expiry_days: 7,
            notifications_enabled: true,
            dev_backend_url: None,
            player_mode: PlayerMode::External,
            addon_url: None,
            addon_sources: Vec::new(),
            together_relay_url: None,
            together_cf_token: None,
            together_cf_account_id: None,
        }
    }
}

/// `c` equals `d` except, possibly, in the three bounded numbers.
pub open spec fn same_except_bounds(c: Config, d: Config) -> bool {
    &&& c.mpv_path == d.mpv_path
    &&& c.vlc_path == d.vlc_path
    &&& c.ffprobe_path == d.ffprobe_path
    &&& c.ffmpeg_path == d.ffmpeg_path
    &&& c.tmdb_api_key == d.tmdb_api_key
    &&& c.omdb_api_key == d.omdb_api_key
    &&& c.cloud_cache_enabled == d.cloud_cache_enabled
    &&& c.cloud_cache_dir == d.cloud_cache_dir
    &&& c.cloud_cache_expiry_hours == d.cloud_cache_expiry_hours
    &&& c.zip_indexing_enabled == d.zip_indexing_enabled
    &&& c.zip_cache_dir == d.zip_cache_dir
    &&& c.zip_cache_expiry_days == d.zip_cache_expiry_days
    &&& c.notifications_enabled == d.notifications_enabled
    &&& c.dev_backend_url == d.dev_backend_url
    &&& c.player_mode == d.player_mode
    &&& c.addon_url == d.addon_url
    &&& c.addon_sources == d.addon_sources
    &&& c.together_relay_url == d.together_relay_url
    &&& c.together_cf_token == d.together_cf_token
    &&& c.together_cf_account_id == d.together_cf_account_id
}

/// The bounds applied to settings read from disk: the cloud cache is capped
/// at 100000 MB, the archive cache at 500 GB, and the scan interval is at
/// least one minute. Nothing else changes.
pub fn apply_config_bounds(config: &mut Config)
    ensures
        final(config).cloud_cache_max_mb == (if old(config).cloud_cache_max_mb < 100000 {
            old(config).cloud_cache_max_mb
        } else {
            100000
        }),
        final(config).zip_cache_max_gb == (if old(config).zip_cache_max_gb < 500 {
            old(config).zip_cache_max_gb
        } else {
            500
        }),
        final(config).cloud_scan_interval_minutes == (if old(config).cloud_scan_interval_minutes
            > 1 {
            old(config).cloud_scan_interval_minutes
        } else {
            1
        }),
        same_except_bounds(*final(config), *old(config)),
        *final(config) == bounded_config(*old(config)),
{
    if config.cloud_cache_max_mb > 100000 {
        config.cloud_cache_max_mb = 100000;
    }
    if config.zip_cache_max_gb > 500 {
        config.zip_cache_max_gb = 500;
    }
    if config.cloud_scan_interval_minutes < 1 {
        config.cloud_scan_interval_minutes = 1;
    }
}

/// The settings with the three bounds applied.
pub open spec fn bounded_config(c: Config) -> Config {
    Config {
        cloud_cache_max_mb: if c.cloud_cache_max_mb < 100000 {
            c.cloud_cache_max_mb
        } else {
            100000
        },
        zip_cache_max_gb: if c.zip_cache_max_gb < 500 {
            c.zip_cache_max_gb
        } else {
            500
        },
        cloud_scan_interval_minutes: if c.cloud_scan_interval_minutes > 1 {
            c.cloud_scan_interval_minutes
        } else {
            1
        },
        ..c
    }
}

/// Applying the bounds a second time changes nothing, and the default
/// settings already lie within them.
pub proof fn lemma_bounds_idempotent(c: Config)
    ensures
        bounded_config(bounded_config(c)) == bounded_config(c),
        is_default_config(c) ==> bounded_config(c) == c,
{
}

/// `c` equals `d` except, possibly, in the two add-on fields.
pub open spec fn same_except_addons(c: Config, d: Config) -> bool {
    &&& c.mpv_path == d.mpv_path
    &&& c.vlc_path == d.vlc_path
    &&& c.ffprobe_path == d.ffprobe_path
    &&& c.ffmpeg_path == d.ffmpeg_path
    &&& c.tmdb_api_key == d.tmdb_api_key
    &&& c.omdb_api_key == d.omdb_api_key
    &&& c.cloud_cache_enabled == d.cloud_cache_enabled
    &&& c.cloud_cache_dir == d.cloud_cache_dir
    &&& c.cloud_cache_max_mb == d.cloud_cache_max_mb
    &&& c.cloud_cache_expiry_hours == d.cloud_cache_expiry_hours
    &&& c.cloud_scan_interval_minutes == d.cloud_scan_interval_minutes
    &&& c.zip_indexing_enabled == d.zip_indexing_enabled
    &&& c.zip_cache_dir == d.zip_cache_dir
    &&& c.zip_cache_max_gb == d.zip_cache_max_gb
    &&& c.zip_cache_expiry_days == d.zip_cache_expiry_days
    &&& c.notifications_enabled == d.notifications_enabled
    &&& c.dev_backend_url == d.dev_backend_url
    &&& c.player_mode == d.player_mode
    &&& c.together_relay_url == d.together_relay_url
    &&& c.together_cf_token == d.together_cf_token
    &&& c.together_cf_account_id == d.together_cf_account_id
}

/// Whether the legacy single add-on URL is moved into the source list: only
/// when the list is empty and the URL is present and not empty.
pub open spec fn needs_addon_migration(c: Config) -> bool {
    c.addon_sources@.len() == 0 && (c.addon_url matches Some(u) && u@.len() > 0)
}

/// The legacy add-on URL becomes the only source, named `Default`, enabled
/// and marked default, under the id given; the legacy field is cleared.
/// Returns whether anything changed (and must be saved).
pub fn migrate_legacy_addon_url_with_id(config: &mut Config, new_id: String) -> (changed: bool)
    ensures
        changed == needs_addon_migration(*old(config)),
        !changed ==> *final(config) == *old(config),
        same_except_addons(*final(config), *old(config)),
        changed ==> {
            &&& final(config).addon_url is None
            &&& final(config).addon_sources@.len() == 1
            &&& final(config).addon_sources@[0].id@ == new_id@
            &&& final(config).addon_sources@[0].name@ == "Default"@
            &&& Some(final(config).addon_sources@[0].url) == old(config).addon_url
            &&& final(config).addon_sources@[0].enabled
            &&& final(config).addon_sources@[0].is_default
            &&& final(config).addon_sources@[0].binary_path is None
        },
{
    if config.addon_sources.len() != 0 {
        return false;
    }
    let url = match &config.addon_url {
        Some(u) => {
            if crate::text::chars_of(u.as_str()).len() == 0 {
                return false;
            }
            u.clone()
        },
        None => return false,
    };
    config.addon_sources.push(
        AddonSource {
            id: new_id,
            name: "Default".to_owned(),
            url,
            enabled: true,
            is_default: true,
            binary_path: None,
        },
    );
    config.addon_url = None;
    true
}

/// After a migration, whatever id it used, no further migration is due:
/// running it again changes nothing.
pub proof fn lemma_migration_runs_once(before: Config, after: Config)
    requires
        needs_addon_migration(before),
        after.addon_sources@.len() == 1,
        after.addon_url is None,
    ensures
        !needs_addon_migration(after),
{
}

/// A lower-case hexadecimal digit.
pub open spec fn lower_hex_digit(c: char) -> bool {
    ('0' <= c && c <= '9') || ('a' <= c && c <= 'f')
}

/// The text of a random (version 4) UUID in hyphenated lower-case form:
/// 36 characters, hyphens at 8, 13, 18 and 23, hexadecimal digits
/// elsewhere, the version digit `4` at 14 and a variant digit of `8` to `b`
/// at 19.
pub open spec fn uuid_v4_text(s: Seq<char>) -> bool {
    &&& s.len() == 36
    &&& forall|i: int|
        0 <= i < 36 ==> if i == 8 || i == 13 || i == 18 || i == 23 {
            #[trigger] s[i] == '-'
        } else {
            lower_hex_digit(s[i])
        }
    &&& s[14] == '4'
    &&& (s[19] == '8' || s[19] == '9' || s[19] == 'a' || s[19] == 'b')
}

/// A fresh random identifier: `uuid::Uuid::new_v4` written with
/// `to_string`. The contract claims only the shape that `new_v4` (version
/// and variant bits set) and the hyphenated lower-case `Display` of `uuid`
/// give every value; which id comes out is left open, as it is random.
#[verifier::external_body]
pub(crate) fn new_source_id() -> (r: String)
    ensures
        uuid_v4_text(r@),
{
    uuid::Uuid::new_v4().to_string()
}

/// `migrate_legacy_addon_url_with_id` under a fresh random id.
pub fn migrate_legacy_addon_url(config: &mut Config) -> (changed: bool)
    ensures
        changed == needs_addon_migration(*old(config)),
        !changed ==> *final(config) == *old(config),
        same_except_addons(*final(config), *old(config)),
        changed ==> {
            &&& final(config).addon_url is None
            &&& final(config).addon_sources@.len() == 1
            &&& uuid_v4_text(final(config).addon_sources@[0].id@)
            &&& final(config).addon_sources@[0].name@ == "Default"@
            &&& Some(final(config).addon_sources@[0].url) == old(config).addon_url
            &&& final(config).addon_sources@[0].enabled
            &&& final(config).addon_sources@[0].is_default
            &&& final(config).addon_sources@[0].binary_path is None
        },
{
    if !needs_addon_migration_exec(config) {
        return false;
    }
    let id = new_source_id();
    migrate_legacy_addon_url_with_id(config, id)
}

fn needs_addon_migration_exec(config: &Config) -> (r: bool)
    ensures
        r == needs_addon_migration(*config),
{
    config.addon_sources.len() == 0 && match &config.addon_url {
        Some(u) => crate::text::chars_of(u.as_str()).len() > 0,
        None => false,
    }
}

} // verus!
