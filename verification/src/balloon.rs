//! Request rules of the TMDB-shaped metadata proxy keyed by IMDb ids: which
//! lookups are refused before any request is made, and the URL of each one.
//! The requests themselves are sent by the application.
use vstd::prelude::*;
use crate::imdb;
use vstd::utf8::encode_utf8;
use crate::text::{chars_equal, chars_of, i64_text, int_text, trim_chars, trim_spaces};

verus! {

/// The proxy's base URL.
pub const BASE: &'static str = "https://api.balloonerismm.workers.dev";

/// A page of search results.
#[derive(Debug, Clone)]
pub struct SearchPage<T> {
    pub page: i32,
    pub page_token: Option<String>,
    pub has_next_page: Option<bool>,
    pub results: Vec<T>,
}

/// One season as listed in a TV detail.
#[derive(Debug, Clone)]
pub struct TvSeasonHeader {
    pub season_number: i32,
    pub label: Option<String>,
}

/// Cast and crew of a title.
#[derive(Debug, Clone)]
pub struct CreditsResponse {
    pub id: Option<String>,
    pub cast: Option<Vec<CastMember>>,
    pub crew: Option<Vec<CrewMember>>,
}

#[derive(Debug, Clone)]
pub struct CastMember {
    pub id: Option<String>,
    pub name: Option<String>,
    pub original_name: Option<String>,
    pub profile_path: Option<String>,
    pub character: Option<String>,
    pub order: Option<i32>,
    pub credit_id: Option<String>,
    pub known_for_department: Option<String>,
    pub gender: Option<i32>,
}

#[derive(Debug, Clone)]
pub struct CrewMember {
    pub id: Option<String>,
    pub name: Option<String>,
    pub original_name: Option<String>,
    pub profile_path: Option<String>,
    pub job: Option<String>,
    pub department: Option<String>,
    pub credit_id: Option<String>,
}

#[derive(Debug, Clone)]
pub struct NamedId {
    pub id: Option<String>,
    pub name: Option<String>,
}

#[derive(Debug, Clone)]
pub struct NamedLanguage {
    pub iso_639_1: Option<String>,
    pub name: Option<String>,
}

#[derive(Debug, Clone)]
pub struct NamedCountry {
    pub iso_3166_1: Option<String>,
    pub name: Option<String>,
}

#[derive(Debug, Clone)]
pub struct ProductionCompany {
    pub id: Option<String>,
    pub name: Option<String>,
    pub category: Option<String>,
    pub origin_country: Option<String>,
    pub logo_path: Option<String>,
}

pub fn looks_like_imdb_id(id: &str) -> (r: bool)
    ensures
        r == imdb::imdb_id_shape(id@),
{
    imdb::looks_like_imdb_id(id)
}

/// An uppercase hexadecimal digit for `d < 16`.
pub open spec fn hex_digit(d: nat) -> char {
    if d < 10 {
        ((d + 48) as u32) as char
    } else {
        ((d + 55) as u32) as char
    }
}

/// One byte as the query encoding writes it: ASCII letters and digits stay,
/// every other byte becomes `%` and two uppercase hex digits.
pub open spec fn encoded_byte(b: u8) -> Seq<char> {
    let c = b as char;
    if ('0' <= c && c <= '9') || ('a' <= c && c <= 'z') || ('A' <= c && c <= 'Z') {
        seq![c]
    } else {
        seq!['%', hex_digit((b / 16) as nat), hex_digit((b % 16) as nat)]
    }
}

/// The percent-encoding of a byte string with every non-alphanumeric byte escaped.
pub open spec fn percent_encoded(bytes: Seq<u8>) -> Seq<char>
    decreases bytes.len(),
{
    if bytes.len() == 0 {
        Seq::empty()
    } else {
        encoded_byte(bytes[0]) + percent_encoded(bytes.drop_first())
    }
}

/// `percent_encoding::utf8_percent_encode` with the `NON_ALPHANUMERIC` set,
/// collected into a `String`. The contract claims that each UTF-8 byte of the
/// input that is an ASCII letter or digit is kept and every other byte is
/// written as `%XX` with uppercase hex digits, in order.
#[verifier::external_body]
fn percent_encode_non_alphanumeric(s: &str) -> (r: String)
    ensures
        r@ == percent_encoded(encode_utf8(s@)),
{
    percent_encoding::utf8_percent_encode(s, percent_encoding::NON_ALPHANUMERIC).to_string()
}

/// A search query as it is put into a request path: every byte but ASCII
/// letters and digits percent-encoded.
pub fn encode_query(s: &str) -> (r: String)
    ensures
        r@ == percent_encoded(encode_utf8(s@)),
{
    percent_encode_non_alphanumeric(s)
}

/// `base + a` as a `String`.
fn join1(base: &str, a: &str) -> (r: String)
    ensures
        r@ == base@ + a@,
{
    let mut r = base.to_owned();
    r.append(a);
    r
}

/// `base + a + b` as a `String`.
fn join2(base: &str, a: &str, b: &str) -> (r: String)
    ensures
        r@ == base@ + a@ + b@,
{
    let mut r = base.to_owned();
    r.append(a);
    r.append(b);
    r
}

/// The trimmed id, or the error the proxy client gives for a malformed one.
pub open spec fn checked_id(imdb_id: Seq<char>) -> Result<Seq<char>, Seq<char>> {
    let id = trim_spaces(imdb_id);
    if imdb::imdb_id_shape(id) {
        Ok(id)
    } else {
        Err("[BALLOON] not an IMDb id: "@ + id)
    }
}

fn check_id(imdb_id: &str) -> (r: Result<String, String>)
    ensures
        match r {
            Ok(id) => checked_id(imdb_id@) == Ok::<Seq<char>, Seq<char>>(id@),
            Err(e) => checked_id(imdb_id@) == Err::<Seq<char>, Seq<char>>(e@),
        },
{
    let trimmed = trim_chars(&chars_of(imdb_id));
    let id = crate::text::string_of(&trimmed);
    if imdb::looks_like_imdb_id(id.as_str()) {
        Ok(id)
    } else {
        Err(join1("[BALLOON] not an IMDb id: ", id.as_str()))
    }
}

/// The view of a URL-or-error result.
pub open spec fn text_result(r: Result<String, String>) -> Result<Seq<char>, Seq<char>> {
    match r {
        Ok(s) => Ok(s@),
        Err(e) => Err(e@),
    }
}

/// The URL of a movie detail lookup: `{BASE}/movie/{id}`.
pub open spec fn movie_url(imdb_id: Seq<char>) -> Result<Seq<char>, Seq<char>> {
    match checked_id(imdb_id) {
        Ok(id) => Ok(BASE@ + "/movie/"@ + id),
        Err(e) => Err(e),
    }
}

pub fn movie_request_url(imdb_id: &str) -> (r: Result<String, String>)
    ensures
        text_result(r) == movie_url(imdb_id@),
{
    let id = check_id(imdb_id)?;
    Ok(join2(BASE, "/movie/", id.as_str()))
}

/// The URL of a TV detail lookup: `{BASE}/tv/{id}`.
pub open spec fn tv_url(imdb_id: Seq<char>) -> Result<Seq<char>, Seq<char>> {
    match checked_id(imdb_id) {
        Ok(id) => Ok(BASE@ + "/tv/"@ + id),
        Err(e) => Err(e),
    }
}

pub fn tv_request_url(imdb_id: &str) -> (r: Result<String, String>)
    ensures
        text_result(r) == tv_url(imdb_id@),
{
    let id = check_id(imdb_id)?;
    Ok(join2(BASE, "/tv/", id.as_str()))
}

/// The URL of a season lookup; seasons are numbered from 1.
pub open spec fn season_url(imdb_id: Seq<char>, season: int) -> Result<Seq<char>, Seq<char>> {
    match checked_id(imdb_id) {
        Ok(id) => if season < 1 {
            Err("[BALLOON] invalid season number: "@ + int_text(season))
        } else {
            Ok(BASE@ + "/tv/"@ + id + "/season/"@ + int_text(season))
        },
        Err(e) => Err(e),
    }
}

pub fn season_request_url(imdb_id: &str, season_number: i32) -> (r: Result<String, String>)
    ensures
        text_result(r) == season_url(imdb_id@, season_number as int),
{
    let id = check_id(imdb_id)?;
    let number = i64_text(season_number as i64);
    if season_number < 1 {
        return Err(join1("[BALLOON] invalid season number: ", number.as_str()));
    }
    let mut url = join2(BASE, "/tv/", id.as_str());
    url.append("/season/");
    url.append(number.as_str());
    Ok(url)
}

/// The URL of an episode lookup: `{BASE}/tv/{id}/season/{s}/episode/{e}`.
pub open spec fn episode_url(imdb_id: Seq<char>, season: int, episode: int) -> Result<
    Seq<char>,
    Seq<char>,
> {
    match checked_id(imdb_id) {
        Ok(id) => Ok(
            BASE@ + "/tv/"@ + id + "/season/"@ + int_text(season) + "/episode/"@ + int_text(
                episode,
            ),
        ),
        Err(e) => Err(e),
    }
}

pub fn episode_request_url(imdb_id: &str, season_number: i32, episode_number: i32) -> (r: Result<
    String,
    String,
>)
    ensures
        text_result(r) == episode_url(imdb_id@, season_number as int, episode_number as int),
{
    let id = check_id(imdb_id)?;
    let mut url = join2(BASE, "/tv/", id.as_str());
    url.append("/season/");
    url.append(i64_text(season_number as i64).as_str());
    url.append("/episode/");
    url.append(i64_text(episode_number as i64).as_str());
    Ok(url)
}

/// An episode lookup is the lookup of its show with the season number after
/// `/season/` and the episode number after `/episode/`; for a season from 1
/// on it is the season lookup followed by `/episode/` and the episode number.
/// It fails exactly when the show lookup fails, with the same error.
pub proof fn lemma_episode_url_extends_season_url(imdb_id: Seq<char>, season: int, episode: int)
    ensures
        tv_url(imdb_id) matches Ok(t) ==> episode_url(imdb_id, season, episode) == Ok::<Seq<char>, Seq<char>>(
            t + "/season/"@ + int_text(season) + "/episode/"@ + int_text(episode),
        ),
        tv_url(imdb_id) matches Err(e) ==> episode_url(imdb_id, season, episode) == Err::<Seq<char>, Seq<char>>(e),
        season >= 1 ==> (season_url(imdb_id, season) matches Ok(u) ==> episode_url(imdb_id, season, episode)
            == Ok::<Seq<char>, Seq<char>>(u + "/episode/"@ + int_text(episode))),
{
    match checked_id(imdb_id) {
        Ok(id) => {
            assert(BASE@ + "/tv/"@ + id + "/season/"@ + int_text(season) + "/episode/"@ + int_text(episode)
                =~= (BASE@ + "/tv/"@ + id) + "/season/"@ + int_text(season) + "/episode/"@ + int_text(episode));
        },
        Err(_) => {},
    }
}

/// A character that can stand in an escaped query: an ASCII letter or digit,
/// or `%`.
pub open spec fn escaped_query_char(c: char) -> bool {
    ('0' <= c && c <= '9') || ('a' <= c && c <= 'z') || ('A' <= c && c <= 'Z') || c == '%'
}

proof fn lemma_hex_digit(d: nat)
    requires
        d < 16,
    ensures
        escaped_query_char(hex_digit(d)),
{
    if d < 10 {
        assert((((d + 48) as u32) as char) as u32 == d + 48);
    } else {
        assert((((d + 55) as u32) as char) as u32 == d + 55);
    }
}

/// An uppercase hexadecimal digit as an escape writes it.
pub open spec fn upper_hex_char(c: char) -> bool {
    ('0' <= c && c <= '9') || ('A' <= c && c <= 'F')
}

proof fn lemma_hex_digit_upper(d: nat)
    requires
        d < 16,
    ensures
        upper_hex_char(hex_digit(d)),
{
    if d < 10 {
        assert((((d + 48) as u32) as char) as u32 == d + 48);
    } else {
        assert((((d + 55) as u32) as char) as u32 == d + 55);
    }
}

proof fn lemma_encoded_chars(bytes: Seq<u8>)
    ensures
        forall|i: int| 0 <= i < percent_encoded(bytes).len() ==> escaped_query_char(#[trigger] percent_encoded(bytes)[i]),
        forall|i: int|
            0 <= i < percent_encoded(bytes).len() && #[trigger] percent_encoded(bytes)[i] == '%' ==> i + 2
                < percent_encoded(bytes).len() && upper_hex_char(percent_encoded(bytes)[i + 1])
                && upper_hex_char(percent_encoded(bytes)[i + 2]),
    decreases bytes.len(),
{
    if bytes.len() > 0 {
        lemma_encoded_chars(bytes.drop_first());
        let b = bytes[0];
        lemma_hex_digit((b / 16) as nat);
        lemma_hex_digit((b % 16) as nat);
        lemma_hex_digit_upper((b / 16) as nat);
        lemma_hex_digit_upper((b % 16) as nat);
        let e = encoded_byte(b);
        assert forall|i: int| 0 <= i < e.len() implies escaped_query_char(#[trigger] e[i]) by {}
        let rest = percent_encoded(bytes.drop_first());
        let all = percent_encoded(bytes);
        assert(all == e + rest);
        assert forall|i: int| 0 <= i < all.len() implies escaped_query_char(#[trigger] all[i]) by {
            if i < e.len() {
                assert(all[i] == e[i]);
            } else {
                assert(all[i] == rest[i - e.len()]);
            }
        }
        assert forall|i: int| 0 <= i < all.len() && #[trigger] all[i] == '%' implies i + 2 < all.len()
            && upper_hex_char(all[i + 1]) && upper_hex_char(all[i + 2]) by {
            if i < e.len() {
                assert(all[i] == e[i]);
                assert(e.len() == 3 && i == 0);
                assert(all[1] == e[1] && all[2] == e[2]);
            } else {
                assert(all[i] == rest[i - e.len()]);
                assert(all[i + 1] == rest[i + 1 - e.len()]);
                assert(all[i + 2] == rest[i + 2 - e.len()]);
            }
        }
    }
}

/// The query of a search URL is escaped: between `?query=` and `&page=1`
/// stand only ASCII letters, digits and `%`, each `%` followed by two
/// uppercase hexadecimal digits, so no space or other raw character of the
/// query goes into the URL.
pub proof fn lemma_search_query_is_escaped(scope: Seq<char>, query: Seq<char>)
    requires
        search_url(scope, query) is Some,
    ensures
        ({
            let u = search_url(scope, query)->0;
            let head = BASE@ + "/search/"@ + scope + "?query="@;
            let p = u.subrange(head.len() as int, u.len() - "&page=1"@.len());
            &&& u == head + p + "&page=1"@
            &&& forall|i: int| 0 <= i < p.len() ==> escaped_query_char(#[trigger] p[i])
            &&& forall|i: int|
                0 <= i < p.len() && #[trigger] p[i] == '%' ==> i + 2 < p.len() && upper_hex_char(p[i + 1])
                    && upper_hex_char(p[i + 2])
        }),
{
    let q = trim_spaces(query);
    let enc = percent_encoded(encode_utf8(q));
    lemma_encoded_chars(encode_utf8(q));
    let u = search_url(scope, query)->0;
    let head = BASE@ + "/search/"@ + scope + "?query="@;
    assert(u =~= head + enc + "&page=1"@);
    let p = u.subrange(head.len() as int, u.len() - "&page=1"@.len());
    assert(p =~= enc);
}

/// `movie` and `tv` are the two title kinds the proxy serves.
pub open spec fn title_kind(kind: Seq<char>) -> bool {
    kind == "movie"@ || kind == "tv"@
}

/// The URL of a per-title listing (`credits` or `images`) of a movie or show.
pub open spec fn listing_url(kind: Seq<char>, imdb_id: Seq<char>, listing: Seq<char>) -> Result<
    Seq<char>,
    Seq<char>,
> {
    match checked_id(imdb_id) {
        Ok(id) => if title_kind(kind) {
            Ok(BASE@ + "/"@ + kind + "/"@ + id + "/"@ + listing)
        } else {
            Err("[BALLOON] invalid kind: "@ + kind)
        },
        Err(e) => Err(e),
    }
}

fn listing_request_url(kind: &str, imdb_id: &str, listing: &str) -> (r: Result<String, String>)
    ensures
        text_result(r) == listing_url(kind@, imdb_id@, listing@),
{
    let id = check_id(imdb_id)?;
    let k = chars_of(kind);
    if !(chars_equal(&k, "movie") || chars_equal(&k, "tv")) {
        return Err(join1("[BALLOON] invalid kind: ", kind));
    }
    let mut url = join2(BASE, "/", kind);
    url.append("/");
    url.append(id.as_str());
    url.append("/");
    url.append(listing);
    Ok(url)
}

/// The request behind `get_credits`.
pub fn credits_request_url(kind: &str, imdb_id: &str) -> (r: Result<String, String>)
    ensures
        text_result(r) == listing_url(kind@, imdb_id@, "credits"@),
{
    listing_request_url(kind, imdb_id, "credits")
}

/// The request behind `get_images`.
pub fn images_request_url(kind: &str, imdb_id: &str) -> (r: Result<String, String>)
    ensures
        text_result(r) == listing_url(kind@, imdb_id@, "images"@),
{
    listing_request_url(kind, imdb_id, "images")
}

/// The first-page search URL for `scope` (`multi`, `movie` or `tv`), or none
/// when the trimmed query is empty.
pub open spec fn search_url(scope: Seq<char>, query: Seq<char>) -> Option<Seq<char>> {
    let q = trim_spaces(query);
    if q.len() == 0 {
        None
    } else {
        Some(BASE@ + "/search/"@ + scope + "?query="@ + percent_encoded(encode_utf8(q)) + "&page=1"@)
    }
}

/// The page returned without a request for an empty query.
pub open spec fn is_empty_page<T>(p: SearchPage<T>) -> bool {
    &&& p.page == 1
    &&& p.page_token is None
    &&& p.has_next_page == Some(false)
    &&& p.results@.len() == 0
}

pub fn empty_search_page<T>() -> (p: SearchPage<T>)
    ensures
        is_empty_page(p),
{
    SearchPage { page: 1, page_token: None, has_next_page: Some(false), results: Vec::new() }
}

/// The first-page search URL for `scope`, or none for an empty query, whose
/// answer is `empty_search_page`.
pub fn search_request_url(scope: &str, query: &str) -> (r: Option<String>)
    ensures
        match r {
            None => search_url(scope@, query@) is None,
            Some(url) => search_url(scope@, query@) == Some(url@),
        },
{
    let trimmed = trim_chars(&chars_of(query));
    if trimmed.len() == 0 {
        return None;
    }
    let q = crate::text::string_of(&trimmed);
    let encoded = encode_query(q.as_str());
    let mut url = join2(BASE, "/search/", scope);
    url.append("?query=");
    url.append(encoded.as_str());
    url.append("&page=1");
    assert(q@ == trim_spaces(query@));
    Some(url)
}

/// The popular-titles kinds: `all`, `movie` and `tv`.
pub open spec fn popular_url(kind: Seq<char>) -> Result<Seq<char>, Seq<char>> {
    if kind == "all"@ || kind == "movie"@ || kind == "tv"@ {
        Ok(BASE@ + "/popular/"@ + kind + "?page=1"@)
    } else {
        Err("[BALLOON] invalid popular kind: "@ + kind)
    }
}

pub fn popular_request_url(kind: &str) -> (r: Result<String, String>)
    ensures
        text_result(r) == popular_url(kind@),
{
    let k = chars_of(kind);
    if !(chars_equal(&k, "all") || chars_equal(&k, "movie") || chars_equal(&k, "tv")) {
        return Err(join1("[BALLOON] invalid popular kind: ", kind));
    }
    let mut url = join2(BASE, "/popular/", kind);
    url.append("?page=1");
    Ok(url)
}

/// A page cut down to its first `limit` results; everything else is kept.
pub fn limit_results<T>(page: SearchPage<T>, limit: usize) -> (r: SearchPage<T>)
    ensures
        r.page == page.page,
        r.page_token == page.page_token,
        r.has_next_page == page.has_next_page,
        r.results@ == (if limit < page.results@.len() {
            page.results@.take(limit as int)
        } else {
            page.results@
        }),
{
    let mut p = page;
    p.results.truncate(limit);
    p
}

} // verus!
