//! Direct download links to remote archives: which URLs are accepted, what a
//! server's answer to a probe means, the file name of a link, which archive
//! entries are indexed, and whether a refreshed link still points to the
//! same archive. The HTTP requests are made by the application.
use vstd::prelude::*;
use crate::text::{
    chars_end_with, chars_equal, chars_of, chars_start_with, find_char, first_index, has_prefix,
    lower_chars, lower_seq, string_of, sub_chars, to_lowercase, trim_char, trim_char_chars,
    trim_chars, trim_spaces, u64_text, nat_text, unicode_lowercase, first_run, find_run,
};

verus! {

pub const DDL_TAIL_BYTES: u64 = 131072;

pub const DDL_LOCAL_HEADER_PREFETCH_BYTES: u64 = 4096;

pub const DDL_MAX_CENTRAL_DIRECTORY_BYTES: u64 = 16777216;

pub const DDL_MAX_ZIP_ENTRIES: usize = 10000;

pub const DDL_MAX_ENTRY_SIZE_BYTES: u64 = 53687091200;

/// A remote archive registered as a source of media.
#[derive(Debug, Clone)]
pub struct DdlSource {
    pub id: String,
    pub url: String,
    pub filename: String,
    pub file_size: u64,
    pub archive_format: String,
    pub entry_count: usize,
    pub video_count: usize,
    pub cd_offset: u64,
    pub cd_size: u64,
    pub created_at: String,
    pub last_verified_at: String,
    pub is_expired: bool,
    /// Set for sources indexed from add-on season packs: "imdb_id:season:stream_name".
    pub addon_origin: Option<String>,
}

/// What probing a link found out.
#[derive(Debug, Clone)]
pub struct DdlValidationResult {
    pub supports_range: bool,
    pub file_size: u64,
    pub filename: String,
    pub content_type: String,
}

/// A newly indexed source and its playable entries.
#[derive(Debug, Clone)]
pub struct DdlIndexResult {
    pub source: DdlSource,
    pub entries: Vec<DdlIndexedEntry>,
}

/// One playable entry of a remote archive.
#[derive(Debug, Clone)]
pub struct DdlIndexedEntry {
    pub entry_path: String,
    pub entry_name: String,
    pub title: String,
    pub season: Option<i32>,
    pub episode: Option<i32>,
    pub compression_method: i64,
    pub local_header_offset: u64,
    pub data_start_offset: u64,
    pub compressed_size: u64,
    pub uncompressed_size: u64,
    pub crc32: String,
}

/// The answer to a request to replace a source's link.
#[derive(Debug, Clone)]
pub struct DdlRefreshResult {
    pub accepted: bool,
    pub message: String,
}

/// What `url::Url::parse` finds in a string: its scheme and host, or none
/// when the string is not a URL.
pub uninterp spec fn url_parts(s: Seq<char>) -> Option<(Seq<char>, Option<Seq<char>>)>;

/// `url::Url::parse`, then `Url::scheme` and `Url::host_str` of the result.
/// The contract only names the outcome as a function of the input text.
#[verifier::external_body]
fn parse_url_parts(s: &str) -> (r: Option<(String, Option<String>)>)
    ensures
        match r {
            None => url_parts(s@) is None,
            Some((scheme, host)) => url_parts(s@) == Some(
                (
                    scheme@,
                    match host {
                        Some(h) => Some(h@),
                        None => None,
                    },
                ),
            ),
        },
{
    match url::Url::parse(s) {
        Ok(parsed) => {
            let host = match parsed.host_str() {
                Some(h) => Some(h.to_string()),
                None => None,
            };
            Some((parsed.scheme().to_string(), host))
        },
        Err(_) => None,
    }
}

/// Hosts in private or link-local IPv4 ranges, recognised by their prefix.
pub open spec fn private_host_prefix(h: Seq<char>) -> bool {
    has_prefix(h, "10."@) || has_prefix(h, "172.16."@) || has_prefix(h, "192.168."@) || has_prefix(
        h,
        "169.254."@,
    )
}

/// Only `http` and `https` links are accepted, and none to a private host:
/// the prefixes are checked on the host as written, then, with `::1`, on the
/// host lower-cased.
pub open spec fn url_policy(scheme: Seq<char>, host: Option<Seq<char>>) -> Result<(), Seq<char>> {
    if scheme != "https"@ && scheme != "http"@ {
        Err("Only HTTPS URLs are allowed for direct links"@)
    } else {
        match host {
            None => Ok(()),
            Some(h) => if private_host_prefix(h) {
                Err("Private/internal network URLs are not allowed for direct links"@)
            } else {
                let l = unicode_lowercase(h);
                if l == "::1"@ || private_host_prefix(l) {
                    Err("Private/internal network URLs are not allowed"@)
                } else {
                    Ok(())
                }
            },
        }
    }
}

pub open spec fn unit_result(r: Result<(), String>) -> Result<(), Seq<char>> {
    match r {
        Ok(()) => Ok(()),
        Err(e) => Err(e@),
    }
}

fn is_private_host(h: &Vec<char>) -> (r: bool)
    ensures
        r == private_host_prefix(h@),
{
    chars_start_with(h, "10.") || chars_start_with(h, "172.16.") || chars_start_with(h, "192.168.")
        || chars_start_with(h, "169.254.")
}

/// The URL rule, given the scheme and host of a parsed link.
pub fn check_url_policy(scheme: &str, host: Option<&str>) -> (r: Result<(), String>)
    ensures
        unit_result(r) == url_policy(
            scheme@,
            match host {
                Some(h) => Some(h@),
                None => None,
            },
        ),
{
    let s = chars_of(scheme);
    if !chars_equal(&s, "https") && !chars_equal(&s, "http") {
        return Err("Only HTTPS URLs are allowed for direct links".to_owned());
    }
    match host {
        None => Ok(()),
        Some(h) => {
            let hv = chars_of(h);
            if is_private_host(&hv) {
                return Err(
                    "Private/internal network URLs are not allowed for direct links".to_owned(),
                );
            }
            let lower = chars_of(to_lowercase(h).as_str());
            if chars_equal(&lower, "::1") || is_private_host(&lower) {
                return Err("Private/internal network URLs are not allowed".to_owned());
            }
            Ok(())
        },
    }
}

/// The verdict on a link before any request is made.
pub open spec fn link_policy(url: Seq<char>) -> Result<(), Seq<char>> {
    match url_parts(url) {
        None => Err("Invalid URL"@),
        Some((scheme, host)) => url_policy(scheme, host),
    }
}

/// The checks `validate_url` makes before contacting the server.
pub fn check_direct_link_url(url: &str) -> (r: Result<(), String>)
    ensures
        unit_result(r) == link_policy(url@),
{
    match parse_url_parts(url) {
        None => Err("Invalid URL".to_owned()),
        Some((scheme, host)) => match host {
            Some(h) => check_url_policy(scheme.as_str(), Some(h.as_str())),
            None => check_url_policy(scheme.as_str(), None),
        },
    }
}

/// Whether all characters are ASCII digits.
pub open spec fn all_digits(s: Seq<char>) -> bool {
    forall|i: int| 0 <= i < s.len() ==> '0' <= #[trigger] s[i] && s[i] <= '9'
}

/// The number written by a string of decimal digits.
pub open spec fn digits_value(s: Seq<char>) -> int
    decreases s.len(),
{
    if s.len() == 0 {
        0
    } else {
        digits_value(s.drop_last()) * 10 + (s.last() as int - 48)
    }
}

/// `u64::from_str`: an optional `+`, then at least one ASCII digit, and a
/// value that fits in a `u64`.
pub open spec fn u64_from_text(s: Seq<char>) -> Option<u64> {
    let d = if s.len() > 0 && s[0] == '+' {
        s.drop_first()
    } else {
        s
    };
    if d.len() > 0 && all_digits(d) && digits_value(d) <= u64::MAX {
        Some(digits_value(d) as u64)
    } else {
        None
    }
}

proof fn lemma_digits_value_nonneg(s: Seq<char>)
    requires
        all_digits(s),
    ensures
        digits_value(s) >= 0,
    decreases s.len(),
{
    if s.len() > 0 {
        assert(all_digits(s.drop_last())) by {
            assert forall|i: int| 0 <= i < s.drop_last().len() implies '0' <= #[trigger] s.drop_last()[i]
                && s.drop_last()[i] <= '9' by {
                assert(s.drop_last()[i] == s[i]);
            }
        }
        lemma_digits_value_nonneg(s.drop_last());
        assert('0' <= s[s.len() - 1]);
    }
}

/// A longer run of digits never writes a smaller number.
proof fn lemma_digits_value_grows(s: Seq<char>, i: int)
    requires
        all_digits(s),
        0 <= i <= s.len(),
    ensures
        digits_value(s.subrange(0, i)) <= digits_value(s),
    decreases s.len() - i,
{
    if i < s.len() {
        let t = s.subrange(0, i + 1);
        assert(all_digits(t)) by {
            assert forall|j: int| 0 <= j < t.len() implies '0' <= #[trigger] t[j] && t[j] <= '9' by {
                assert(t[j] == s[j]);
            }
        }
        assert(t.drop_last() =~= s.subrange(0, i));
        assert(all_digits(s.subrange(0, i))) by {
            assert forall|j: int| 0 <= j < i implies '0' <= #[trigger] s.subrange(0, i)[j]
                && s.subrange(0, i)[j] <= '9' by {
                assert(s.subrange(0, i)[j] == s[j]);
            }
        }
        lemma_digits_value_nonneg(s.subrange(0, i));
        assert('0' <= t.last());
        lemma_digits_value_grows(s, i + 1);
    } else {
        assert(s.subrange(0, i) =~= s);
    }
}

/// Parses a `Content-Length` value as `str::parse::<u64>` does.
pub fn parse_u64(text: &str) -> (r: Option<u64>)
    ensures
        r == u64_from_text(text@),
{
    let all = chars_of(text);
    let d = if all.len() > 0 && all[0] == '+' {
        sub_chars(&all, 1, all.len())
    } else {
        all
    };
    assert(d@ =~= (if text@.len() > 0 && text@[0] == '+' {
        text@.drop_first()
    } else {
        text@
    }));
    if d.len() == 0 {
        return None;
    }
    let mut value: u64 = 0;
    let mut i: usize = 0;
    while i < d.len()
        invariant
            i <= d.len(),
            d@ == (if text@.len() > 0 && text@[0] == '+' {
                text@.drop_first()
            } else {
                text@
            }),
            forall|j: int| 0 <= j < i ==> '0' <= #[trigger] d@[j] && d@[j] <= '9',
            value as int == digits_value(d@.subrange(0, i as int)),
        decreases d.len() - i,
    {
        let c = d[i];
        if c < '0' || c > '9' {
            assert(!('0' <= d@[i as int] && d@[i as int] <= '9'));
            assert(!all_digits(d@));
            return None;
        }
        let digit: u64 = (c as u64) - 48;
        assert(d@.subrange(0, i + 1).drop_last() =~= d@.subrange(0, i as int));
        assert(d@.subrange(0, i + 1).last() == c);
        assert(digits_value(d@.subrange(0, i + 1)) == value * 10 + digit);
        let next = match value.checked_mul(10) {
            Some(m) => m.checked_add(digit),
            None => None,
        };
        match next {
            Some(n) => {
                value = n;
            },
            None => {
                proof {
                    if all_digits(d@) {
                        lemma_digits_value_grows(d@, i + 1);
                    }
                }
                return None;
            },
        }
        i = i + 1;
    }
    assert(d@.subrange(0, d.len() as int) =~= d@);
    Some(value)
}

/// Servers that do not name a range unit (or name `none`, in any ASCII case)
/// do not advertise range requests.
pub open spec fn advertises_ranges(accept_ranges: Option<Seq<char>>) -> bool {
    let v = match accept_ranges {
        Some(a) => a,
        None => "none"@,
    };
    lower_seq(v) != lower_seq("none"@)
}

/// Whether the `Accept-Ranges` header of a probe advertises range requests.
pub fn supports_range_header(accept_ranges: Option<&str>) -> (r: bool)
    ensures
        r == advertises_ranges(
            match accept_ranges {
                Some(a) => Some(a@),
                None => None,
            },
        ),
{
    let v = match accept_ranges {
        Some(a) => lower_chars(a),
        None => lower_chars("none"),
    };
    let none = lower_chars("none");
    !crate::config::vec_equal(&v, &none)
}

/// The filename in a `Content-Disposition` value, as a view computation: the
/// parts separated by `;` are read in order; the first part that, trimmed,
/// starts with `filename*=` and whose text between the first and second `''`
/// decodes (and unquotes) to a non-empty name, or that starts with
/// `filename=` and unquotes to a non-empty name, gives the result.
pub open spec fn disposition_name(value: Seq<char>) -> Option<Seq<char>>
    decreases value.len(),
{
    let i = first_index(value, ';');
    let part = if i < 0 {
        value
    } else {
        value.subrange(0, i)
    };
    match part_name(trim_spaces(part)) {
        Some(n) => Some(n),
        None => if i < 0 {
            None
        } else {
            proof {
                crate::text::lemma_first_index_bound(value, ';');
            }
            disposition_name(value.subrange(i + 1, value.len() as int))
        },
    }
}

/// The second of the pieces that `''` splits `s` into.
pub open spec fn second_piece(s: Seq<char>) -> Option<Seq<char>> {
    let p = first_run(s, "''"@);
    if p < 0 {
        None
    } else {
        let rest = s.subrange(p + 2, s.len() as int);
        let q = first_run(rest, "''"@);
        if q < 0 {
            Some(rest)
        } else {
            Some(rest.subrange(0, q))
        }
    }
}

/// The filename a single trimmed part names, if any.
pub open spec fn part_name(p: Seq<char>) -> Option<Seq<char>> {
    if has_prefix(p, "filename*="@) {
        match second_piece(p.subrange(10, p.len() as int)) {
            Some(encoded) => {
                let d = trim_spaces(trim_char(percent_decoded_text(encoded), '"'));
                if d.len() > 0 {
                    Some(d)
                } else {
                    None
                }
            },
            None => None,
        }
    } else if has_prefix(p, "filename="@) {
        let n = trim_spaces(trim_char(p.subrange(9, p.len() as int), '"'));
        if n.len() > 0 {
            Some(n)
        } else {
            None
        }
    } else {
        None
    }
}

/// What `percent_decode_str(..).decode_utf8_lossy()` gives for a string.
pub uninterp spec fn percent_decoded_text(s: Seq<char>) -> Seq<char>;

/// `percent_encoding::percent_decode_str` followed by `decode_utf8_lossy`.
/// The contract names the result and claims one fact the source shows: a
/// string without `%` decodes to itself.
#[verifier::external_body]
pub(crate) fn percent_decode_lossy(s: &str) -> (r: String)
    ensures
        r@ == percent_decoded_text(s@),
        !s@.contains('%') ==> r@ == s@,
{
    percent_encoding::percent_decode_str(s).decode_utf8_lossy().into_owned()
}

fn second_piece_of(s: &Vec<char>) -> (r: Option<Vec<char>>)
    ensures
        match r {
            Some(v) => second_piece(s@) == Some(v@),
            None => second_piece(s@) is None,
        },
{
    let pat = chars_of("''");
    proof {
        reveal_strlit("''");
    }
    assert(pat@.len() == 2);
    match find_run(s, &pat) {
        None => None,
        Some(p) => {
            let rest = sub_chars(s, p + 2, s.len());
            match find_run(&rest, &pat) {
                None => Some(rest),
                Some(q) => Some(sub_chars(&rest, 0, q)),
            }
        },
    }
}

fn part_name_of(p: &Vec<char>) -> (r: Option<String>)
    ensures
        match r {
            Some(n) => part_name(p@) == Some(n@),
            None => part_name(p@) is None,
        },
{
    if chars_start_with(p, "filename*=") {
        proof {
            assert("filename*="@.len() == 10) by {
                reveal_strlit("filename*=");
            }
        }
        let name = sub_chars(p, 10, p.len());
        match second_piece_of(&name) {
            Some(encoded) => {
                let decoded = percent_decode_lossy(string_of(&encoded).as_str());
                let d = trim_chars(&trim_char_chars(&chars_of(decoded.as_str()), '"'));
                if d.len() > 0 {
                    Some(string_of(&d))
                } else {
                    None
                }
            },
            None => None,
        }
    } else if chars_start_with(p, "filename=") {
        proof {
            assert("filename="@.len() == 9) by {
                reveal_strlit("filename=");
            }
        }
        let n = trim_chars(&trim_char_chars(&sub_chars(p, 9, p.len()), '"'));
        if n.len() > 0 {
            Some(string_of(&n))
        } else {
            None
        }
    } else {
        None
    }
}

/// The file name a `Content-Disposition` header value gives, if any.
pub fn parse_content_disposition_filename(value: &str) -> (r: Option<String>)
    ensures
        match r {
            Some(n) => disposition_name(value@) == Some(n@),
            None => disposition_name(value@) is None,
        },
{
    let v = chars_of(value);
    let mut start: usize = 0;
    assert(v@.subrange(0, v.len() as int) =~= v@);
    while start <= v.len()
        invariant
            start <= v.len(),
            v@ == value@,
            disposition_name(value@) == disposition_name(v@.subrange(start as int, v.len() as int)),
        decreases v.len() + 1 - start,
    {
        let rest = sub_chars(&v, start, v.len());
        let sep = find_char(&rest, ';');
        let part = match sep {
            Some(i) => sub_chars(&rest, 0, i),
            None => sub_chars(&rest, 0, rest.len()),
        };
        assert(rest@.subrange(0, rest.len() as int) =~= rest@);
        let found = part_name_of(&trim_chars(&part));
        match found {
            Some(n) => {
                return Some(n);
            },
            None => {},
        }
        match sep {
            None => {
                return None;
            },
            Some(i) => {
                assert(rest@.subrange(i + 1, rest.len() as int) =~= v@.subrange(
                    start + i + 1,
                    v.len() as int,
                ));
                start = start + i + 1;
            },
        }
    }
    None
}

/// The last `/`-separated piece of a URL, cut at its first `?`.
pub open spec fn url_tail(url: Seq<char>) -> Seq<char> {
    let seg = url.subrange(crate::archive::last_pos(url, '/') + 1, url.len() as int);
    let q = first_index(seg, '?');
    if q < 0 {
        seg
    } else {
        seg.subrange(0, q)
    }
}

/// The file name of a link: the `Content-Disposition` name when there is one,
/// else the decoded, trimmed last piece of the URL path, else `archive.zip`.
pub open spec fn link_filename(disposition: Option<Seq<char>>, url: Seq<char>) -> Seq<char> {
    let from_header = match disposition {
        Some(v) => disposition_name(v),
        None => None,
    };
    match from_header {
        Some(n) => n,
        None => {
            let d = trim_spaces(percent_decoded_text(url_tail(url)));
            if d.len() == 0 || d == "/"@ {
                "archive.zip"@
            } else {
                d
            }
        },
    }
}

/// Without a usable `Content-Disposition` name, a link's file name is read
/// from the last `/`-separated piece of its URL up to, not including, the
/// first `?` of that piece: for `k` the length of the part before the first
/// `?` (or the whole piece when it has none), the name is that part,
/// percent-decoded and trimmed, or `archive.zip` when nothing is left. The
/// query string never goes into the name.
pub proof fn lemma_url_name_stops_at_query(disposition: Option<Seq<char>>, url: Seq<char>, k: int)
    requires
        match disposition {
            Some(v) => disposition_name(v) is None,
            None => true,
        },
        0 <= k <= url.len() - (crate::archive::last_pos(url, '/') + 1),
        forall|j: int|
            0 <= j < k ==> #[trigger] url[crate::archive::last_pos(url, '/') + 1 + j] != '?',
        k < url.len() - (crate::archive::last_pos(url, '/') + 1) ==> url[crate::archive::last_pos(url, '/') + 1 + k]
            == '?',
    ensures
        ({
            let start = crate::archive::last_pos(url, '/') + 1;
            let d = trim_spaces(percent_decoded_text(url.subrange(start, start + k)));
            link_filename(disposition, url) == (if d.len() == 0 || d == "/"@ {
                "archive.zip"@
            } else {
                d
            })
        }),
        !url.subrange(crate::archive::last_pos(url, '/') + 1, crate::archive::last_pos(url, '/') + 1 + k).contains(
            '?',
        ),
{
    crate::archive::lemma_last_pos(url, '/');
    let start = crate::archive::last_pos(url, '/') + 1;
    let seg = url.subrange(start, url.len() as int);
    assert forall|j: int| 0 <= j < k implies seg[j] != '?' by {
        assert(seg[j] == url[start + j]);
    }
    if k < seg.len() {
        assert(seg[k] == url[start + k]);
    }
    crate::text::lemma_first_index_exact(seg, '?', k);
    if k < seg.len() {
        assert(seg.subrange(0, k) =~= url.subrange(start, start + k));
    } else {
        assert(seg =~= url.subrange(start, start + k));
    }
    assert(url_tail(url) == url.subrange(start, start + k));
    let p = url.subrange(start, start + k);
    if p.contains('?') {
        let j = choose|j: int| 0 <= j < p.len() && p[j] == '?';
        assert(p[j] == url[start + j]);
    }
}

pub open spec fn opt_text(o: Option<&str>) -> Option<Seq<char>> {
    match o {
        Some(s) => Some(s@),
        None => None,
    }
}

/// The file name `validate_url` reports for a link.
pub fn extract_filename(content_disposition: Option<&str>, url: &str) -> (r: String)
    ensures
        r@ == link_filename(opt_text(content_disposition), url@),
{
    match content_disposition {
        Some(v) => match parse_content_disposition_filename(v) {
            Some(n) => {
                return n;
            },
            None => {},
        },
        None => {},
    }
    let u = chars_of(url);
    let start = match crate::archive::last_position(&u, '/') {
        Some(i) => i + 1,
        None => 0,
    };
    proof {
        crate::archive::lemma_last_pos(url@, '/');
    }
    let seg = sub_chars(&u, start, u.len());
    let name = match find_char(&seg, '?') {
        Some(q) => sub_chars(&seg, 0, q),
        None => seg,
    };
    let decoded = percent_decode_lossy(string_of(&name).as_str());
    let d = trim_chars(&chars_of(decoded.as_str()));
    if d.len() == 0 || chars_equal(&d, "/") {
        "archive.zip".to_owned()
    } else {
        string_of(&d)
    }
}

/// What probing a link yields, from the answers the server gave: its size
/// (when the `Content-Length` was readable), whether it serves ranges (from
/// its headers or a one-byte probe), its content type and disposition.
pub open spec fn validation_outcome(
    file_size: Option<u64>,
    supports_range: bool,
    content_type: Option<Seq<char>>,
    disposition: Option<Seq<char>>,
    url: Seq<char>,
) -> Result<(bool, u64, Seq<char>, Seq<char>), Seq<char>> {
    match file_size {
        None => Err("Cannot determine file size from URL"@),
        Some(size) => if !supports_range {
            Err(
                "This URL does not support Range requests. The file host must support HTTP Range requests for streaming."@,
            )
        } else {
            Ok(
                (
                    true,
                    size,
                    link_filename(disposition, url),
                    match content_type {
                        Some(t) => t,
                        None => "application/octet-stream"@,
                    },
                ),
            )
        },
    }
}

/// The result of `validate_url` once the server has answered.
pub fn assemble_validation(
    file_size: Option<u64>,
    supports_range: bool,
    content_type: Option<&str>,
    content_disposition: Option<&str>,
    url: &str,
) -> (r: Result<DdlValidationResult, String>)
    ensures
        match r {
            Ok(v) => validation_outcome(
                file_size,
                supports_range,
                opt_text(content_type),
                opt_text(content_disposition),
                url@,
            ) == Ok::<(bool, u64, Seq<char>, Seq<char>), Seq<char>>(
                (v.supports_range, v.file_size, v.filename@, v.content_type@),
            ),
            Err(e) => validation_outcome(
                file_size,
                supports_range,
                opt_text(content_type),
                opt_text(content_disposition),
                url@,
            ) == Err::<(bool, u64, Seq<char>, Seq<char>), Seq<char>>(e@),
        },
{
    let size = match file_size {
        Some(s) => s,
        None => return Err("Cannot determine file size from URL".to_owned()),
    };
    if !supports_range {
        return Err(
            "This URL does not support Range requests. The file host must support HTTP Range requests for streaming.".to_owned(),
        );
    }
    let content_type = match content_type {
        Some(t) => t.to_owned(),
        None => "application/octet-stream".to_owned(),
    };
    let filename = extract_filename(content_disposition, url);
    Ok(DdlValidationResult { supports_range: true, file_size: size, filename, content_type })
}

/// Stored (0) and deflated (8) entries can be played from a remote archive.
pub fn is_supported_compression(method: u16) -> (r: bool)
    ensures
        r == (method == 0 || method == 8),
{
    method == 0 || method == 8
}

/// An entry of a remote archive is indexed when it is not encrypted, is at
/// most 50 GiB uncompressed, and uses a supported compression method.
pub fn entry_is_indexable(is_encrypted: bool, uncompressed_size: u64, compression_method: u16) -> (r:
    bool)
    ensures
        r == (!is_encrypted && uncompressed_size <= DDL_MAX_ENTRY_SIZE_BYTES && (compression_method
            == 0 || compression_method == 8)),
{
    !is_encrypted && uncompressed_size <= DDL_MAX_ENTRY_SIZE_BYTES && is_supported_compression(
        compression_method,
    )
}

/// The last `min(size, 128 KiB)` bytes of a file of `file_size > 0` bytes,
/// as an inclusive range.
pub fn tail_range(file_size: u64) -> (r: (u64, u64))
    requires
        file_size > 0,
    ensures
        r.1 == file_size - 1,
        r.0 == file_size - (if file_size < DDL_TAIL_BYTES {
            file_size
        } else {
            DDL_TAIL_BYTES
        }),
{
    let tail_len = if file_size < DDL_TAIL_BYTES {
        file_size
    } else {
        DDL_TAIL_BYTES
    };
    (file_size - tail_len, file_size - 1)
}

/// The inclusive byte range of the central directory: refused when it is
/// larger than 16 MiB, or when its end, `offset + size - 1`, is not a `u64`.
pub fn central_directory_range(cd_offset: u64, cd_size: u64) -> (r: Result<(u64, u64), String>)
    ensures
        match r {
            Ok((start, end)) => cd_size <= DDL_MAX_CENTRAL_DIRECTORY_BYTES && start == cd_offset
                && end == cd_offset + cd_size - 1,
            Err(e) => (cd_size > DDL_MAX_CENTRAL_DIRECTORY_BYTES && e@
                == "Archive Central Directory is too large"@) || (cd_size
                <= DDL_MAX_CENTRAL_DIRECTORY_BYTES && (cd_offset + cd_size > u64::MAX || cd_offset
                + cd_size == 0) && e@ == "Invalid Central Directory range"@),
        },
{
    if cd_size > DDL_MAX_CENTRAL_DIRECTORY_BYTES {
        return Err("Archive Central Directory is too large".to_owned());
    }
    match cd_offset.checked_add(cd_size) {
        Some(total) => if total >= 1 {
            Ok((cd_offset, total - 1))
        } else {
            Err("Invalid Central Directory range".to_owned())
        },
        None => Err("Invalid Central Directory range".to_owned()),
    }
}

/// The length of a ZIP local file header with its name and extra field:
/// 30 bytes plus the two little-endian 16-bit lengths at offsets 26 and 28.
pub fn local_header_span(header: &Vec<u8>) -> (r: Result<usize, String>)
    ensures
        match r {
            Ok(n) => header@.len() >= 30 && n == 30 + (header@[26] + header@[27] * 256) + (
            header@[28] + header@[29] * 256),
            Err(e) => header@.len() < 30 && e@ == "Local file header too short"@,
        },
{
    if header.len() < 30 {
        return Err("Local file header too short".to_owned());
    }
    let name_len: usize = (header[26] as usize) + (header[27] as usize) * 256;
    let extra_len: usize = (header[28] as usize) + (header[29] as usize) * 256;
    Ok(30 + name_len + extra_len)
}

/// Whether a refreshed link is rejected for its size: the size must be the
/// registered one.
pub open spec fn size_rejection(expected: u64, got: u64) -> Option<(bool, Seq<char>)> {
    if got != expected {
        Some(
            (
                false,
                "The new link points to a different file (size mismatch: expected "@ + nat_text(
                    expected as nat,
                ) + " bytes, got "@ + nat_text(got as nat) + " bytes)."@,
            ),
        )
    } else {
        None
    }
}

/// The rejection of a refreshed link of the wrong size, or none.
pub fn refresh_size_check(source: &DdlSource, new_size: u64) -> (r: Option<DdlRefreshResult>)
    ensures
        match r {
            Some(x) => size_rejection(source.file_size, new_size) == Some((x.accepted, x.message@)),
            None => size_rejection(source.file_size, new_size) is None,
        },
{
    if new_size != source.file_size {
        let mut m = "The new link points to a different file (size mismatch: expected ".to_owned();
        m.append(u64_text(source.file_size).as_str());
        m.append(" bytes, got ");
        m.append(u64_text(new_size).as_str());
        m.append(" bytes).");
        return Some(DdlRefreshResult { accepted: false, message: m });
    }
    None
}

/// A refreshed link of the right size is accepted exactly when its central
/// directory sits where the registered one does.
pub open spec fn structure_verdict(source_cd: (u64, u64), found_cd: (u64, u64)) -> (bool, Seq<char>) {
    if found_cd.0 != source_cd.0 || found_cd.1 != source_cd.1 {
        (
            false,
            "The new link points to a different archive (internal structure mismatch). Please provide a link to the same archive."@,
        )
    } else {
        (true, "Link refreshed successfully."@)
    }
}

pub fn refresh_structure_check(source: &DdlSource, cd_offset: u64, cd_size: u64) -> (r:
    DdlRefreshResult)
    ensures
        (r.accepted, r.message@) == structure_verdict(
            (source.cd_offset, source.cd_size),
            (cd_offset, cd_size),
        ),
{
    if cd_offset != source.cd_offset || cd_size != source.cd_size {
        return DdlRefreshResult {
            accepted: false,
            message: "The new link points to a different archive (internal structure mismatch). Please provide a link to the same archive.".to_owned(),
        };
    }
    DdlRefreshResult { accepted: true, message: "Link refreshed successfully.".to_owned() }
}

/// Whether a link can be indexed: its name or content type must be a known
/// archive format, and only ZIP archives are indexed so far.
pub open spec fn index_format_verdict(filename: Seq<char>, content_type: &str) -> Result<(), Seq<char>> {
    match crate::archive::detected_format(filename, content_type@) {
        None => Err("This file is not a supported archive format (ZIP, RAR, or TAR)."@),
        Some(crate::archive::ArchiveFormat::Zip) => Ok(()),
        Some(f) => Err(
            "Direct link indexing for "@ + crate::archive::format_name(f)
                + " archives is not yet supported. Only ZIP is currently supported."@,
        ),
    }
}

pub fn check_index_format(filename: &str, content_type: &str) -> (r: Result<(), String>)
    ensures
        unit_result(r) == index_format_verdict(filename@, content_type),
{
    match crate::archive::detect_archive_format(filename, Some(content_type)) {
        None => Err("This file is not a supported archive format (ZIP, RAR, or TAR).".to_owned()),
        Some(crate::archive::ArchiveFormat::Zip) => Ok(()),
        Some(f) => {
            let mut m = "Direct link indexing for ".to_owned();
            m.append(f.as_str());
            m.append(" archives is not yet supported. Only ZIP is currently supported.");
            Err(m)
        },
    }
}

/// An archive with more than 10000 entries is not indexed.
pub fn check_entry_count(entry_count: usize) -> (r: Result<(), String>)
    ensures
        r is Ok <==> entry_count <= DDL_MAX_ZIP_ENTRIES,
        r matches Err(e) ==> e@ == "Archive contains too many entries"@,
{
    if entry_count > DDL_MAX_ZIP_ENTRIES {
        return Err("Archive contains too many entries".to_owned());
    }
    Ok(())
}

/// The index record of a remote ZIP entry. Its title, season and episode
/// come from the file name when they could be read from it; otherwise the
/// title is the entry's own name and there is no numbering. The CRC is
/// written as 8 lower-case hexadecimal digits.
pub fn ddl_indexed_entry(
    entry_path: String,
    parsed: Option<crate::media::ParsedMedia>,
    compression_method: u16,
    local_header_offset: u64,
    data_start_offset: u64,
    compressed_size: u64,
    uncompressed_size: u64,
    crc32: u32,
) -> (r: DdlIndexedEntry)
    ensures
        r.entry_path@ == entry_path@,
        r.entry_name@ == crate::archive::last_segment(entry_path@),
        match parsed {
            Some(p) => r.title@ == p.title@ && r.season == p.season && r.episode == p.episode,
            None => r.title@ == crate::archive::last_segment(entry_path@) && r.season is None && r.episode
                is None,
        },
        r.compression_method == compression_method as i64,
        r.local_header_offset == local_header_offset,
        r.data_start_offset == data_start_offset,
        r.compressed_size == compressed_size,
        r.uncompressed_size == uncompressed_size,
        r.crc32@ == crate::archive::hex_width(crc32 as nat, 8),
{
    let chars = chars_of(entry_path.as_str());
    let start: usize = match crate::archive::last_position(&chars, '/') {
        Some(k) => k + 1,
        None => 0,
    };
    proof {
        crate::archive::lemma_last_pos(chars@, '/');
    }
    let entry_name = crate::text::string_of_range(&chars, start, chars.len());
    let (title, season, episode) = match parsed {
        Some(p) => (p.title, p.season, p.episode),
        None => (entry_name.clone(), None, None),
    };
    let crc = string_of(&crate::archive::hex_digits(crc32 as u64, 8));
    DdlIndexedEntry {
        entry_path,
        entry_name,
        title,
        season,
        episode,
        compression_method: compression_method as i64,
        local_header_offset,
        data_start_offset,
        compressed_size,
        uncompressed_size,
        crc32: crc,
    }
}

/// The result of indexing a remote ZIP archive: refused when no entry is
/// playable; otherwise a new source under the id and time given, with the
/// archive's size, entry counts and central directory, and the entries.
pub fn ddl_index_result(
    id: String,
    url: &str,
    filename: &str,
    file_size: u64,
    entry_count: usize,
    cd_offset: u64,
    cd_size: u64,
    now: String,
    entries: Vec<DdlIndexedEntry>,
) -> (r: Result<DdlIndexResult, String>)
    ensures
        entries@.len() == 0 <==> r is Err,
        r matches Err(e) ==> e@ == "No playable video files found in this archive."@,
        r matches Ok(x) ==> {
            &&& x.source.id@ == id@
            &&& x.source.url@ == url@
            &&& x.source.filename@ == filename@
            &&& x.source.file_size == file_size
            &&& x.source.archive_format@ == "zip"@
            &&& x.source.entry_count == entry_count
            &&& x.source.video_count == entries@.len()
            &&& x.source.cd_offset == cd_offset
            &&& x.source.cd_size == cd_size
            &&& x.source.created_at@ == now@
            &&& x.source.last_verified_at@ == now@
            &&& !x.source.is_expired
            &&& x.source.addon_origin is None
            &&& x.entries@ == entries@
        },
{
    if entries.len() == 0 {
        return Err("No playable video files found in this archive.".to_owned());
    }
    let source = DdlSource {
        id,
        url: url.to_owned(),
        filename: filename.to_owned(),
        file_size,
        archive_format: "zip".to_owned(),
        entry_count,
        video_count: entries.len(),
        cd_offset,
        cd_size,
        created_at: now.clone(),
        last_verified_at: now,
        is_expired: false,
        addon_origin: None,
    };
    Ok(DdlIndexResult { source, entries })
}

} // verus!
