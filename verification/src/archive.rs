//! Archive formats: how a ZIP, TAR or RAR file is recognised, how an entry
//! inside one is streamed, and what playback of such an entry will need.
use vstd::prelude::*;
use crate::media::{MediaItem, ParsedMedia, ZipArchiveInfo, ZipCompressionType, ZipStreamInfo};
use crate::text::{
    chars_end_with, chars_equal, chars_of, char_is_ascii_alnum, has_suffix, i64_text, int_text,
    is_ascii_alnum, lower_chars, lower_seq, string_of, string_of_range, chars_contain_run, contains_run,
    push_char,
};

verus! {

/// The Drive API base that archive bytes are fetched from.
pub const DRIVE_API_BASE: &'static str = "https://www.googleapis.com/drive/v3";

/// Read buffer used while scanning an archive stream.
pub const ARCHIVE_STREAM_BUFFER_BYTES: usize = 1048576;

/// How much of a RAR file is fetched up front to read its headers.
pub const RAR_HEADER_PREFETCH_BYTES: u64 = 1048576;

#[derive(Debug, Clone, Copy, PartialEq, Eq, Structural)]
pub enum ArchiveFormat {
    Zip,
    Tar,
    Rar,
}

/// The lower-case name of a format.
pub open spec fn format_name(f: ArchiveFormat) -> Seq<char> {
    match f {
        ArchiveFormat::Zip => "zip"@,
        ArchiveFormat::Tar => "tar"@,
        ArchiveFormat::Rar => "rar"@,
    }
}

impl ArchiveFormat {
    pub fn as_str(self) -> (s: &'static str)
        ensures
            s@ == format_name(self),
    {
        match self {
            ArchiveFormat::Zip => "zip",
            ArchiveFormat::Tar => "tar",
            ArchiveFormat::Rar => "rar",
        }
    }
}

/// The MIME type as a string, the empty string when there is none.
pub open spec fn mime_text(mime_type: Option<&str>) -> Seq<char> {
    match mime_type {
        Some(m) => m@,
        None => Seq::empty(),
    }
}

/// The format of a file with this name and MIME type. The MIME type and the
/// extension are compared without regard to ASCII case; ZIP is tried first,
/// then RAR, then TAR, so a ZIP MIME type wins over a `.rar` name.
pub open spec fn detected_format(name: Seq<char>, mime: Seq<char>) -> Option<ArchiveFormat> {
    let n = lower_seq(name);
    let m = lower_seq(mime);
    if m == "application/zip"@ || m == "application/x-zip-compressed"@ || has_suffix(n, ".zip"@) {
        Some(ArchiveFormat::Zip)
    } else if m == "application/x-rar-compressed"@ || m == "application/vnd.rar"@ || has_suffix(
        n,
        ".rar"@,
    ) {
        Some(ArchiveFormat::Rar)
    } else if m == "application/x-tar"@ || m == "application/gzip"@ || has_suffix(n, ".tar"@)
        || has_suffix(n, ".tar.gz"@) || has_suffix(n, ".tgz"@) {
        Some(ArchiveFormat::Tar)
    } else {
        None
    }
}

pub fn detect_archive_format(name: &str, mime_type: Option<&str>) -> (r: Option<ArchiveFormat>)
    ensures
        r == detected_format(name@, mime_text(mime_type)),
{
    let lower = lower_chars(name);
    let mime = match mime_type {
        Some(m) => lower_chars(m),
        None => {
            let v: Vec<char> = Vec::new();
            assert(v@ =~= lower_seq(Seq::<char>::empty()));
            v
        },
    };
    if chars_equal(&mime, "application/zip") || chars_equal(&mime, "application/x-zip-compressed")
        || chars_end_with(&lower, ".zip") {
        return Some(ArchiveFormat::Zip);
    }
    if chars_equal(&mime, "application/x-rar-compressed") || chars_equal(&mime, "application/vnd.rar")
        || chars_end_with(&lower, ".rar") {
        return Some(ArchiveFormat::Rar);
    }
    if chars_equal(&mime, "application/x-tar") || chars_equal(&mime, "application/gzip")
        || chars_end_with(&lower, ".tar") || chars_end_with(&lower, ".tar.gz") || chars_end_with(
        &lower,
        ".tgz",
    ) {
        return Some(ArchiveFormat::Tar);
    }
    None
}

pub fn is_supported_archive_item(name: &str, mime_type: Option<&str>) -> (r: bool)
    ensures
        r == detected_format(name@, mime_text(mime_type)).is_some(),
{
    detect_archive_format(name, mime_type).is_some()
}

/// A gzip-compressed TAR by its name: `.tar.gz` or `.tgz`, in any ASCII case.
pub open spec fn gzip_tar_name(name: Seq<char>) -> bool {
    has_suffix(lower_seq(name), ".tar.gz"@) || has_suffix(lower_seq(name), ".tgz"@)
}

pub fn is_gzip_tar(filename: &str) -> (r: bool)
    ensures
        r == gzip_tar_name(filename@),
{
    let lower = lower_chars(filename);
    chars_end_with(&lower, ".tar.gz") || chars_end_with(&lower, ".tgz")
}

/// The character kept in a cache file name: ASCII letters, digits, `.`, `-`
/// and `_` stay, everything else becomes `_`.
pub open spec fn safe_char(c: char) -> char {
    if is_ascii_alnum(c) || c == '.' || c == '-' || c == '_' {
        c
    } else {
        '_'
    }
}

pub open spec fn safe_name(s: Seq<char>) -> Seq<char> {
    s.map_values(|c: char| safe_char(c))
}

pub fn safe_filename(input: &str) -> (r: String)
    ensures
        r@ == safe_name(input@),
{
    let src = chars_of(input);
    let mut out: Vec<char> = Vec::new();
    let mut i: usize = 0;
    while i < src.len()
        invariant
            i <= src.len(),
            src@ == input@,
            out@ == safe_name(input@).subrange(0, i as int),
        decreases src.len() - i,
    {
        let c = src[i];
        let kept = if char_is_ascii_alnum(c) || c == '.' || c == '-' || c == '_' {
            c
        } else {
            '_'
        };
        out.push(kept);
        i = i + 1;
    }
    string_of(&out)
}

/// The format recorded for a media row: exactly `"tar"` or `"rar"`, and ZIP
/// for anything else, a missing value included.
pub open spec fn format_of_media(m: MediaItem) -> ArchiveFormat {
    match m.archive_format {
        Some(f) => if f@ == "tar"@ {
            ArchiveFormat::Tar
        } else if f@ == "rar"@ {
            ArchiveFormat::Rar
        } else {
            ArchiveFormat::Zip
        },
        None => ArchiveFormat::Zip,
    }
}

pub fn archive_format_for_media(media: &MediaItem) -> (r: ArchiveFormat)
    ensures
        r == format_of_media(*media),
{
    match &media.archive_format {
        Some(f) => {
            let v = chars_of(f.as_str());
            if chars_equal(&v, "tar") {
                ArchiveFormat::Tar
            } else if chars_equal(&v, "rar") {
                ArchiveFormat::Rar
            } else {
                ArchiveFormat::Zip
            }
        },
        None => ArchiveFormat::Zip,
    }
}

/// A video entry found inside an archive, with where its bytes lie.
#[derive(Debug, Clone)]
pub struct IndexedArchiveEntry {
    pub entry_path: String,
    pub entry_name: String,
    pub parsed: ParsedMedia,
    pub local_header_offset: u64,
    pub data_start_offset: u64,
    pub compressed_size: u64,
    pub uncompressed_size: u64,
    pub crc32: String,
    pub compression_method: i64,
}

/// An analysed archive: its facts and its indexed video entries.
#[derive(Debug, Clone)]
pub struct AnalyzedArchive {
    pub archive: ZipArchiveInfo,
    pub indexed_entries: Vec<IndexedArchiveEntry>,
}

/// The name an archive is downloaded under: the local path it was found at,
/// or, for a remote one (a path holding `://`) or one without a path, its
/// id (`archive` when it has none) with the format's extension.
pub open spec fn archive_file_name(m: MediaItem) -> Seq<char> {
    let id = match m.parent_zip_id {
        Some(i) => i@,
        None => "archive"@,
    };
    let generated = id + "."@ + format_name(format_of_media(m));
    match m.file_path {
        Some(p) => if contains_run(p@, "://"@) {
            generated
        } else {
            p@
        },
        None => generated,
    }
}

pub fn archive_filename_for_media(media: &MediaItem) -> (r: String)
    ensures
        r@ == archive_file_name(*media),
{
    let format = archive_format_for_media(media);
    let mut generated = match &media.parent_zip_id {
        Some(id) => id.clone(),
        None => "archive".to_owned(),
    };
    push_char(&mut generated, '.');
    let ext = format.as_str();
    let ext_chars = chars_of(ext);
    let mut i: usize = 0;
    let ghost base = generated@;
    while i < ext_chars.len()
        invariant
            i <= ext_chars.len(),
            ext_chars@ == format_name(format),
            generated@ == base + ext_chars@.subrange(0, i as int),
        decreases ext_chars.len() - i,
    {
        push_char(&mut generated, ext_chars[i]);
        assert(ext_chars@.subrange(0, i + 1) =~= ext_chars@.subrange(0, i as int).push(ext_chars@[i as int]));
        i = i + 1;
    }
    assert(ext_chars@.subrange(0, ext_chars@.len() as int) =~= ext_chars@);
    proof {
        reveal_strlit(".");
        reveal_strlit("archive");
        assert(base == (match media.parent_zip_id {
            Some(i) => i@,
            None => "archive"@,
        }) + "."@);
    }
    match &media.file_path {
        Some(p) => {
            let v = chars_of(p.as_str());
            if chars_contain_run(&v, "://") {
                generated
            } else {
                p.clone()
            }
        },
        None => generated,
    }
}

/// The part of an entry path after its last `/`.
pub open spec fn last_segment(path: Seq<char>) -> Seq<char> {
    path.subrange(last_pos(path, '/') + 1, path.len() as int)
}

/// Whether a TAR stream is read through gzip: when its MIME type is
/// `application/gzip` (in any ASCII case) or its name ends in `.tar.gz` or
/// `.tgz`. A gzip stream has no raw byte positions to stream from.
pub open spec fn tar_gzip_hint(filename: Seq<char>, mime_type: Option<&str>) -> bool {
    (match mime_type {
        Some(m) => lower_seq(m@) == "application/gzip"@,
        None => false,
    }) || gzip_tar_name(filename)
}

pub fn tar_stream_is_gzip(filename: &str, mime_type: Option<&str>) -> (r: bool)
    ensures
        r == tar_gzip_hint(filename@, mime_type),
{
    let by_mime = match mime_type {
        Some(m) => {
            let lower = lower_chars(m);
            chars_equal(&lower, "application/gzip")
        },
        None => false,
    };
    by_mime || is_gzip_tar(filename)
}

/// The index record of a TAR video entry. When the stream can be passed
/// through (it is not gzip), the raw header and data positions and the
/// size are kept and the entry is stored (method 0); otherwise the offsets
/// are zero and the method is -2, so playback extracts it.
pub fn tar_index_entry(
    entry_path: String,
    parsed: ParsedMedia,
    raw_header_position: u64,
    raw_file_position: u64,
    size: u64,
    supports_passthrough: bool,
) -> (r: IndexedArchiveEntry)
    ensures
        r.entry_path@ == entry_path@,
        r.entry_name@ == last_segment(entry_path@),
        r.parsed == parsed,
        r.local_header_offset == (if supports_passthrough { raw_header_position } else { 0 }),
        r.data_start_offset == (if supports_passthrough { raw_file_position } else { 0 }),
        r.compressed_size == (if supports_passthrough { size } else { 0 }),
        r.uncompressed_size == size,
        r.crc32@ == "00000000"@,
        r.compression_method == (if supports_passthrough { 0i64 } else { -2i64 }),
{
    let entry_name = entry_name_of(&entry_path);
    IndexedArchiveEntry {
        entry_path,
        entry_name,
        parsed,
        local_header_offset: if supports_passthrough { raw_header_position } else { 0 },
        data_start_offset: if supports_passthrough { raw_file_position } else { 0 },
        compressed_size: if supports_passthrough { size } else { 0 },
        uncompressed_size: size,
        crc32: "00000000".to_owned(),
        compression_method: if supports_passthrough { 0 } else { -2 },
    }
}

/// The archive-level record of an analysed TAR or RAR file: no central
/// directory, compression counted as other.
pub fn analyzed_archive_info(
    format: ArchiveFormat,
    file_id: &str,
    filename: &str,
    file_size_bytes: u64,
    total_entries: usize,
    video_entries: usize,
) -> (r: ZipArchiveInfo)
    ensures
        r.zip_file_id@ == file_id@,
        r.filename@ == filename@,
        r.archive_format@ == format_name(format),
        r.file_size_bytes == file_size_bytes,
        r.compression_type == ZipCompressionType::Other,
        r.central_dir_offset == 0,
        r.central_dir_size == 0,
        r.total_entries == total_entries,
        r.video_entries == video_entries,
{
    ZipArchiveInfo {
        zip_file_id: file_id.to_owned(),
        filename: filename.to_owned(),
        archive_format: format.as_str().to_owned(),
        file_size_bytes,
        compression_type: ZipCompressionType::Other,
        central_dir_offset: 0,
        central_dir_size: 0,
        total_entries,
        video_entries,
    }
}

fn entry_name_of(entry_path: &String) -> (r: String)
    ensures
        r@ == last_segment(entry_path@),
{
    let chars = chars_of(entry_path.as_str());
    let start: usize = match last_position(&chars, '/') {
        Some(k) => k + 1,
        None => 0,
    };
    proof {
        lemma_last_pos(chars@, '/');
    }
    string_of_range(&chars, start, chars.len())
}

/// The index record of a RAR video entry read from its headers. A stored,
/// non-solid entry in one piece streams from its raw chunk (method 0);
/// otherwise the offsets are zero and the method is -1, so playback
/// extracts it. A streamable entry without chunk data is an error.
pub fn rar_index_entry(
    entry_path: String,
    parsed: ParsedMedia,
    is_compressed: bool,
    is_solid: bool,
    chunk_count: usize,
    first_chunk: Option<(u64, u64)>,
    length: u64,
) -> (r: Result<IndexedArchiveEntry, String>)
    ensures
        ({
            let passthrough = !is_compressed && !is_solid && chunk_count == 1;
            match r {
                Err(e) => passthrough && first_chunk is None && e@ == "RAR entry missing raw chunk metadata"@,
                Ok(x) => {
                    &&& !(passthrough && first_chunk is None)
                    &&& x.entry_path@ == entry_path@
                    &&& x.entry_name@ == last_segment(entry_path@)
                    &&& x.parsed == parsed
                    &&& x.local_header_offset == 0
                    &&& x.data_start_offset == (if passthrough { first_chunk->Some_0.0 } else { 0 })
                    &&& x.compressed_size == (if passthrough { first_chunk->Some_0.1 } else { 0 })
                    &&& x.compression_method == (if passthrough { 0i64 } else { -1i64 })
                    &&& x.uncompressed_size == length
                    &&& x.crc32@ == "00000000"@
                },
            }
        }),
{
    let passthrough = !is_compressed && !is_solid && chunk_count == 1;
    let (data_start_offset, compressed_size, compression_method) = if passthrough {
        match first_chunk {
            Some((start, len)) => (start, len, 0i64),
            None => return Err("RAR entry missing raw chunk metadata".to_owned()),
        }
    } else {
        (0, 0, -1i64)
    };
    let entry_name = entry_name_of(&entry_path);
    Ok(IndexedArchiveEntry {
        entry_path,
        entry_name,
        parsed,
        local_header_offset: 0,
        data_start_offset,
        compressed_size,
        uncompressed_size: length,
        crc32: "00000000".to_owned(),
        compression_method,
    })
}

/// Whether a RAR header read from a local copy is looked at: only files that
/// are neither encrypted nor split across volumes.
pub fn rar_header_is_indexed(is_file: bool, is_encrypted: bool, is_split: bool) -> (r: bool)
    ensures
        r == (is_file && !is_encrypted && !is_split),
{
    is_file && !is_encrypted && !is_split
}

/// The index record of a RAR video entry listed from a local copy: always
/// extracted (method -1), with its size and CRC (8 lower-case hex digits).
pub fn rar_listed_entry(entry_path: String, parsed: ParsedMedia, unpacked_size: u64, file_crc: u32) -> (r:
    IndexedArchiveEntry)
    ensures
        r.entry_path@ == entry_path@,
        r.entry_name@ == last_segment(entry_path@),
        r.parsed == parsed,
        r.local_header_offset == 0,
        r.data_start_offset == 0,
        r.compressed_size == 0,
        r.uncompressed_size == unpacked_size,
        r.crc32@ == hex_width(file_crc as nat, 8),
        r.compression_method == -1,
{
    let entry_name = entry_name_of(&entry_path);
    let crc = string_of(&hex_digits(file_crc as u64, 8));
    IndexedArchiveEntry {
        entry_path,
        entry_name,
        parsed,
        local_header_offset: 0,
        data_start_offset: 0,
        compressed_size: 0,
        uncompressed_size: unpacked_size,
        crc32: crc,
        compression_method: -1,
    }
}

/// The archive id and entry path that extraction works from: the entry path
/// is the recorded entry path, else the file path.
pub open spec fn entry_location(m: MediaItem) -> Result<(Seq<char>, Seq<char>), Seq<char>> {
    match m.parent_zip_id {
        None => Err("Archive file ID not found"@),
        Some(id) => match m.zip_entry_path {
            Some(p) => Ok((id@, p@)),
            None => match m.file_path {
                Some(p) => Ok((id@, p@)),
                None => Err("Archive entry path not found"@),
            },
        },
    }
}

pub fn archive_entry_location(media: &MediaItem) -> (r: Result<(String, String), String>)
    ensures
        match r {
            Ok(v) => entry_location(*media) == Ok::<(Seq<char>, Seq<char>), Seq<char>>((v.0@, v.1@)),
            Err(e) => entry_location(*media) == Err::<(Seq<char>, Seq<char>), Seq<char>>(e@),
        },
{
    let id = match &media.parent_zip_id {
        Some(id) => id.clone(),
        None => return Err("Archive file ID not found".to_owned()),
    };
    match &media.zip_entry_path {
        Some(p) => Ok((id, p.clone())),
        None => match &media.file_path {
            Some(p) => Ok((id, p.clone())),
            None => Err("Archive entry path not found".to_owned()),
        },
    }
}

/// A lower-case hexadecimal digit.
pub open spec fn lower_hex_digit(d: nat) -> char {
    if d < 10 {
        ((d + 48) as u32) as char
    } else {
        ((d + 87) as u32) as char
    }
}

/// The last `width` hexadecimal digits of `n`, zero-padded (`{:016x}` for a
/// `u64` with a width of 16).
pub open spec fn hex_width(n: nat, width: nat) -> Seq<char>
    decreases width,
{
    if width == 0 {
        Seq::empty()
    } else {
        hex_width(n / 16, (width - 1) as nat).push(lower_hex_digit(n % 16))
    }
}

pub(crate) fn hex_digits(n: u64, width: u32) -> (v: Vec<char>)
    ensures
        v@ == hex_width(n as nat, width as nat),
    decreases width,
{
    if width == 0 {
        return Vec::new();
    }
    let mut v = hex_digits(n / 16, width - 1);
    let d = n % 16;
    let c = if d < 10 {
        char_of_code(d as u32 + 48)
    } else {
        char_of_code(d as u32 + 87)
    };
    v.push(c);
    v
}

fn char_of_code(code: u32) -> (c: char)
    requires
        48 <= code < 123,
    ensures
        c == code as char,
{
    let b: u8 = code as u8;
    b as char
}

/// The extension a cache file keeps: the entry's own (as `Path::extension`
/// reads it from the last path component), else `bin`. Entry paths that
/// reach here name files, so none ends in `/`.
pub open spec fn cache_extension(entry_path: Seq<char>) -> Seq<char> {
    match crate::paths::name_parts(last_segment(entry_path)).1 {
        Some(e) => e,
        None => "bin"@,
    }
}

/// The cache file name of an extracted entry: `archive-`, the safe form of
/// `title-entry_path`, `-`, the hash in 16 hexadecimal digits, `.` and the
/// extension.
pub open spec fn cache_file_name(title: Seq<char>, entry_path: Seq<char>, hash: u64) -> Seq<char> {
    "archive-"@ + safe_name(title + "-"@ + entry_path) + "-"@ + hex_width(hash as nat, 16) + "."@
        + cache_extension(entry_path)
}

/// The cache file name of an extracted entry, given the hash of its archive
/// id and entry path.
pub fn archive_cache_file_name(title: &str, entry_path: &str, hash: u64) -> (r: String)
    ensures
        r@ == cache_file_name(title@, entry_path@, hash),
{
    let mut label_source = title.to_owned();
    label_source.append("-");
    label_source.append(entry_path);
    let label = safe_filename(label_source.as_str());
    let mut r = "archive-".to_owned();
    r.append(label.as_str());
    r.append("-");
    let digits = hex_digits(hash, 16);
    let hex = string_of(&digits);
    r.append(hex.as_str());
    r.append(".");
    let chars = chars_of(entry_path);
    let start: usize = match last_position(&chars, '/') {
        Some(k) => k + 1,
        None => 0,
    };
    proof {
        lemma_last_pos(chars@, '/');
    }
    let name = string_of_range(&chars, start, chars.len());
    let (_, ext) = crate::paths::split_file_name(name.as_str());
    match ext {
        Some(e) => r.append(e.as_str()),
        None => r.append("bin"),
    }
    r
}

/// The name an archive is downloaded to before extraction or analysis:
/// the safe forms of its id and name around a purpose word.
pub open spec fn temp_file_name(file_id: Seq<char>, suffix: Seq<char>, filename: Seq<char>) -> Seq<char> {
    safe_name(file_id) + "-"@ + suffix + "-"@ + safe_name(filename)
}

pub fn archive_temp_file_name(file_id: &str, suffix: &str, filename: &str) -> (r: String)
    ensures
        r@ == temp_file_name(file_id@, suffix@, filename@),
{
    let mut r = safe_filename(file_id);
    r.append("-");
    r.append(suffix);
    r.append("-");
    let safe = safe_filename(filename);
    r.append(safe.as_str());
    r
}

/// Position of the last occurrence of `c` in `s`, or -1.
pub open spec fn last_pos(s: Seq<char>, c: char) -> int
    decreases s.len(),
{
    if s.len() == 0 {
        -1
    } else if s.last() == c {
        s.len() - 1
    } else {
        last_pos(s.drop_last(), c)
    }
}

pub proof fn lemma_last_pos(s: Seq<char>, c: char)
    ensures
        -1 <= last_pos(s, c) < s.len(),
        last_pos(s, c) >= 0 ==> s[last_pos(s, c)] == c,
        forall|i: int| last_pos(s, c) < i < s.len() ==> s[i] != c,
    decreases s.len(),
{
    if s.len() > 0 && s.last() != c {
        lemma_last_pos(s.drop_last(), c);
        assert forall|i: int| last_pos(s, c) < i < s.len() implies s[i] != c by {
            if i < s.len() - 1 {
                assert(s[i] == s.drop_last()[i]);
            }
        }
    }
}

pub fn last_position(v: &Vec<char>, c: char) -> (r: Option<usize>)
    ensures
        match r {
            Some(i) => i < v.len() && i as int == last_pos(v@, c),
            None => last_pos(v@, c) == -1,
        },
{
    let mut i = v.len();
    assert(v@.subrange(0, i as int) =~= v@);
    while i > 0
        invariant
            i <= v.len(),
            last_pos(v@, c) == last_pos(v@.subrange(0, i as int), c),
        decreases i,
    {
        if v[i - 1] == c {
            return Some(i - 1);
        }
        assert(v@.subrange(0, i as int).drop_last() =~= v@.subrange(0, i - 1));
        i = i - 1;
    }
    None
}

/// The extension of a file name: the text after the last `.` that is not
/// followed by a `/`, ASCII lower-cased.
pub open spec fn name_extension(name: Seq<char>) -> Option<Seq<char>> {
    let d = last_pos(name, '.');
    let s = last_pos(name, '/');
    if d >= 0 && d > s {
        Some(lower_seq(name.subrange(d + 1, name.len() as int)))
    } else {
        None
    }
}

/// The MIME type a player is told for an entry with this name.
pub open spec fn content_type_of(name: Seq<char>) -> Seq<char> {
    match name_extension(name) {
        Some(e) => if e == "mkv"@ {
            "video/x-matroska"@
        } else if e == "webm"@ {
            "video/webm"@
        } else if e == "avi"@ {
            "video/x-msvideo"@
        } else if e == "mov"@ {
            "video/quicktime"@
        } else {
            "video/mp4"@
        },
        None => "video/mp4"@,
    }
}

/// The MIME type a player is told for an entry with this name. The table is
/// this library's own: Matroska, WebM, AVI and QuickTime files get their own
/// types, and every other name is served as MP4.
pub fn content_type_for_name(name: &str) -> (r: String)
    ensures
        r@ == content_type_of(name@),
{
    let v = chars_of(name);
    let dot = last_position(&v, '.');
    let slash = last_position(&v, '/');
    let ext_start: Option<usize> = match dot {
        Some(d) => match slash {
            Some(s) => if d > s {
                Some(d + 1)
            } else {
                None
            },
            None => Some(d + 1),
        },
        None => None,
    };
    match ext_start {
        Some(start) => {
            let raw = string_of_range(&v, start, v.len());
            let e = lower_chars(raw.as_str());
            if chars_equal(&e, "mkv") {
                "video/x-matroska".to_owned()
            } else if chars_equal(&e, "webm") {
                "video/webm".to_owned()
            } else if chars_equal(&e, "avi") {
                "video/x-msvideo".to_owned()
            } else if chars_equal(&e, "mov") {
                "video/quicktime".to_owned()
            } else {
                "video/mp4".to_owned()
            }
        },
        None => "video/mp4".to_owned(),
    }
}

/// The name that decides an entry's content type: its path inside the
/// archive, else its file path, else `"video/mp4"`.
pub open spec fn type_name_of(m: MediaItem) -> Seq<char> {
    match m.zip_entry_path {
        Some(p) => p@,
        None => match m.file_path {
            Some(p) => p@,
            None => "video/mp4"@,
        },
    }
}

/// What streaming an archive entry gives: the archive's file id, the first
/// and last byte of the entry's raw data, and the content type; or the reason
/// it cannot be streamed. An entry streams only when it is stored (method 0,
/// a missing method counting as -1) with a known data offset and size; the
/// range ends at `start + max(size, 1) - 1` and must fit in a `u64`.
pub open spec fn stream_plan(m: MediaItem) -> Result<(Seq<char>, u64, u64, Seq<char>), Seq<char>> {
    match m.parent_zip_id {
        None => Err("Archive file ID not found"@),
        Some(id) => {
            let method = match m.zip_compression_method {
                Some(x) => x as int,
                None => -1,
            };
            if method != 0 {
                Err("Archive entry requires extraction before playback"@)
            } else {
                match m.zip_data_start_offset {
                    None => Err("Archive entry does not support direct streaming"@),
                    Some(off) => match m.zip_compressed_size {
                        None => Err("Archive entry size not available"@),
                        Some(size) => {
                            let start = off as u64;
                            let len = size as u64;
                            let last: int = if len == 0 {
                                0
                            } else {
                                len - 1
                            };
                            if start + last > u64::MAX {
                                Err("Archive entry range overflow"@)
                            } else {
                                Ok((id@, start, (start + last) as u64, content_type_of(type_name_of(m))))
                            }
                        },
                    },
                }
            }
        },
    }
}

/// The stream plan of a result, in the form `stream_plan` gives it.
pub open spec fn stream_result_view(r: Result<ZipStreamInfo, String>) -> Result<
    (Seq<char>, u64, u64, Seq<char>),
    Seq<char>,
> {
    match r {
        Ok(info) => Ok((info.zip_file_id@, info.byte_start, info.byte_end, info.content_type@)),
        Err(e) => Err(e@),
    }
}

/// The byte range of an archive entry that a player can stream. ZIP, TAR and
/// RAR entries follow one rule, that of `stream_plan`: a ZIP entry streams
/// directly only when it is stored, exactly as a TAR or RAR entry does.
pub fn build_archive_stream_info(media: &MediaItem) -> (r: Result<ZipStreamInfo, String>)
    ensures
        stream_result_view(r) == stream_plan(*media),
{
    let archive_file_id = match &media.parent_zip_id {
        Some(id) => id.clone(),
        None => return Err("Archive file ID not found".to_owned()),
    };
    let method: i64 = match media.zip_compression_method {
        Some(x) => x,
        None => -1,
    };
    if method != 0 {
        return Err("Archive entry requires extraction before playback".to_owned());
    }
    let byte_start: u64 = match media.zip_data_start_offset {
        Some(off) => off as u64,
        None => return Err("Archive entry does not support direct streaming".to_owned()),
    };
    let compressed_size: u64 = match media.zip_compressed_size {
        Some(size) => size as u64,
        None => return Err("Archive entry size not available".to_owned()),
    };
    let byte_end = match byte_start.checked_add(compressed_size.saturating_sub(1)) {
        Some(end) => end,
        None => return Err("Archive entry range overflow".to_owned()),
    };
    let content_type = match &media.zip_entry_path {
        Some(p) => content_type_for_name(p.as_str()),
        None => match &media.file_path {
            Some(p) => content_type_for_name(p.as_str()),
            None => content_type_for_name("video/mp4"),
        },
    };
    Ok(ZipStreamInfo { zip_file_id: archive_file_id, byte_start, byte_end, content_type })
}

/// Whether an archive entry can be played, and how.
#[derive(Debug, Clone)]
pub struct ArchivePlaybackAssessment {
    pub can_play: bool,
    pub mode: String,
    pub message: String,
    pub details: Vec<String>,
}

impl View for ArchivePlaybackAssessment {
    type V = (bool, Seq<char>, Seq<char>, Seq<Seq<char>>);

    open spec fn view(&self) -> (bool, Seq<char>, Seq<char>, Seq<Seq<char>>) {
        (self.can_play, self.mode@, self.message@, self.details@.map_values(|d: String| d@))
    }
}

pub open spec fn direct_assessment(detail: Seq<char>) -> (bool, Seq<char>, Seq<char>, Seq<Seq<char>>) {
    (true, "direct"@, "Playable directly from the archive."@, seq![detail])
}

pub open spec fn extract_assessment(first: Seq<char>, second: Seq<char>) -> (
    bool,
    Seq<char>,
    Seq<char>,
    Seq<Seq<char>>,
) {
    (true, "extract"@, "Playable, but playback requires extraction first."@, seq![first, second])
}

pub open spec fn unsupported_zip_detail(method: int) -> Seq<char> {
    "ZIP entry uses unsupported compression or archive metadata (method "@ + int_text(method) + ")."@
}

/// ZIP: a stored entry (a missing method counts as stored) that streams plays
/// directly; a deflated one (method 8) plays after extraction; anything else,
/// a stored entry that cannot stream included, is unsupported.
pub open spec fn zip_assessment(m: MediaItem) -> (bool, Seq<char>, Seq<char>, Seq<Seq<char>>) {
    let method = match m.zip_compression_method {
        Some(x) => x as int,
        None => 0,
    };
    if method == 0 && stream_plan(m) is Ok {
        direct_assessment(
            "ZIP entry uses store mode, so playback can stream raw bytes directly from Drive."@,
        )
    } else if method == 8 {
        extract_assessment(
            "ZIP entry is compressed with deflate, so raw byte-range streaming is not possible."@,
            "Startup may be slower because the video must be extracted into cache before playback."@,
        )
    } else {
        (
            false,
            "unsupported"@,
            "This ZIP entry is not supported for playback."@,
            seq![unsupported_zip_detail(method)],
        )
    }
}

/// TAR: direct when the entry streams, otherwise playable after extraction.
pub open spec fn tar_assessment(m: MediaItem) -> (bool, Seq<char>, Seq<char>, Seq<Seq<char>>) {
    if stream_plan(m) is Ok {
        direct_assessment(
            "This TAR entry has direct raw byte offsets, so playback can stream without extraction."@,
        )
    } else {
        extract_assessment(
            "Compressed TAR variants such as .tar.gz or .tgz are not directly range-streamable."@,
            "Playback may start slower because the video must be extracted into cache first."@,
        )
    }
}

/// RAR: direct when the entry streams, otherwise playable after extraction.
pub open spec fn rar_assessment(m: MediaItem) -> (bool, Seq<char>, Seq<char>, Seq<Seq<char>>) {
    if stream_plan(m) is Ok {
        direct_assessment(
            "This RAR entry is stored and directly range-streamable, so playback can start without extraction."@,
        )
    } else {
        extract_assessment(
            "Most RAR entries cannot be streamed like ZIP store mode if they are compressed, solid, split across volumes, encrypted, or otherwise not directly range-addressable."@,
            "Playback may start slower because the video must be extracted into cache first."@,
        )
    }
}

/// The assessment of a media row: none unless it lives inside an archive.
pub open spec fn planned_assessment(m: MediaItem) -> Option<
    (bool, Seq<char>, Seq<char>, Seq<Seq<char>>),
> {
    if m.parent_zip_id is None {
        None
    } else {
        Some(
            match format_of_media(m) {
                ArchiveFormat::Zip => zip_assessment(m),
                ArchiveFormat::Tar => tar_assessment(m),
                ArchiveFormat::Rar => rar_assessment(m),
            },
        )
    }
}

fn make_assessment(can_play: bool, mode: &str, message: &str, details: Vec<String>) -> (r:
    ArchivePlaybackAssessment)
    ensures
        r@ == (can_play, mode@, message@, details@.map_values(|d: String| d@)),
{
    ArchivePlaybackAssessment {
        can_play,
        mode: mode.to_owned(),
        message: message.to_owned(),
        details,
    }
}

fn one_detail(d: &str) -> (v: Vec<String>)
    ensures
        v@.map_values(|s: String| s@) == seq![d@],
{
    let mut v: Vec<String> = Vec::new();
    v.push(d.to_owned());
    assert(v@.map_values(|s: String| s@) =~= seq![d@]);
    v
}

fn two_details(a: &str, b: &str) -> (v: Vec<String>)
    ensures
        v@.map_values(|s: String| s@) == seq![a@, b@],
{
    let mut v: Vec<String> = Vec::new();
    v.push(a.to_owned());
    v.push(b.to_owned());
    assert(v@.map_values(|s: String| s@) =~= seq![a@, b@]);
    v
}

fn assess_zip_playback(media: &MediaItem) -> (r: ArchivePlaybackAssessment)
    ensures
        r@ == zip_assessment(*media),
{
    let method: i64 = match media.zip_compression_method {
        Some(x) => x,
        None => 0,
    };
    if method == 0 && build_archive_stream_info(media).is_ok() {
        make_assessment(
            true,
            "direct",
            "Playable directly from the archive.",
            one_detail(
                "ZIP entry uses store mode, so playback can stream raw bytes directly from Drive.",
            ),
        )
    } else if method == 8 {
        make_assessment(
            true,
            "extract",
            "Playable, but playback requires extraction first.",
            two_details(
                "ZIP entry is compressed with deflate, so raw byte-range streaming is not possible.",
                "Startup may be slower because the video must be extracted into cache before playback.",
            ),
        )
    } else {
        let mut detail = "ZIP entry uses unsupported compression or archive metadata (method ".to_owned();
        let number = i64_text(method);
        detail.append(number.as_str());
        detail.append(").");
        let mut details: Vec<String> = Vec::new();
        let ghost d = detail@;
        details.push(detail);
        assert(details@.map_values(|s: String| s@) =~= seq![d]);
        make_assessment(false, "unsupported", "This ZIP entry is not supported for playback.", details)
    }
}

fn assess_tar_playback(media: &MediaItem) -> (r: ArchivePlaybackAssessment)
    ensures
        r@ == tar_assessment(*media),
{
    if build_archive_stream_info(media).is_ok() {
        make_assessment(
            true,
            "direct",
            "Playable directly from the archive.",
            one_detail(
                "This TAR entry has direct raw byte offsets, so playback can stream without extraction.",
            ),
        )
    } else {
        make_assessment(
            true,
            "extract",
            "Playable, but playback requires extraction first.",
            two_details(
                "Compressed TAR variants such as .tar.gz or .tgz are not directly range-streamable.",
                "Playback may start slower because the video must be extracted into cache first.",
            ),
        )
    }
}

fn assess_rar_playback(media: &MediaItem) -> (r: ArchivePlaybackAssessment)
    ensures
        r@ == rar_assessment(*media),
{
    if build_archive_stream_info(media).is_ok() {
        make_assessment(
            true,
            "direct",
            "Playable directly from the archive.",
            one_detail(
                "This RAR entry is stored and directly range-streamable, so playback can start without extraction.",
            ),
        )
    } else {
        make_assessment(
            true,
            "extract",
            "Playable, but playback requires extraction first.",
            two_details(
                "Most RAR entries cannot be streamed like ZIP store mode if they are compressed, solid, split across volumes, encrypted, or otherwise not directly range-addressable.",
                "Playback may start slower because the video must be extracted into cache first.",
            ),
        )
    }
}

pub fn assess_archive_playback(media: &MediaItem) -> (r: Option<ArchivePlaybackAssessment>)
    ensures
        match r {
            Some(a) => planned_assessment(*media) == Some(a@),
            None => planned_assessment(*media) is None,
        },
{
    if media.parent_zip_id.is_none() {
        return None;
    }
    let assessment = match archive_format_for_media(media) {
        ArchiveFormat::Zip => assess_zip_playback(media),
        ArchiveFormat::Tar => assess_tar_playback(media),
        ArchiveFormat::Rar => assess_rar_playback(media),
    };
    Some(assessment)
}


/// Only a ZIP entry can be judged unplayable: a TAR or RAR entry inside an
/// archive is always playable, directly or after extraction.
pub proof fn lemma_only_zip_entries_unplayable(m: MediaItem)
    ensures
        planned_assessment(m) matches Some(a) && !a.0 ==> format_of_media(m) == ArchiveFormat::Zip,
{
}

/// A streamable entry covers exactly its stored bytes: the range is not
/// empty, and holds `size` bytes (one byte for an empty entry).
pub proof fn lemma_stream_range_matches_size(m: MediaItem)
    requires
        stream_plan(m) is Ok,
    ensures
        m.zip_compressed_size is Some,
        ({
            let p = stream_plan(m)->Ok_0;
            let len = m.zip_compressed_size->Some_0 as u64;
            p.1 <= p.2 && p.2 - p.1 + 1 == (if len == 0 {
                1
            } else {
                len as int
            })
        }),
{
}

/// A directly playable entry is exactly one whose stream plan succeeds.
pub proof fn lemma_direct_iff_streamable(m: MediaItem)
    requires
        m.parent_zip_id is Some,
    ensures
        (planned_assessment(m) matches Some(a) && a.1 == "direct"@) ==> stream_plan(m) is Ok,
        (format_of_media(m) != ArchiveFormat::Zip && stream_plan(m) is Ok) ==> (planned_assessment(
            m,
        ) matches Some(a) && a.1 == "direct"@),
{
    reveal_strlit("direct");
    reveal_strlit("extract");
    reveal_strlit("unsupported");
    assert("direct"@.len() != "extract"@.len());
    assert("direct"@.len() != "unsupported"@.len());
}

} // verus!
