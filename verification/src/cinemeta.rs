//! Request rules of the Stremio "Cinemeta" add-on: title and catalog URLs,
//! and the fixed image hosts. The requests are sent by the application.
use vstd::prelude::*;
use vstd::utf8::encode_utf8;
use crate::balloon::{encode_query, percent_encoded};
use crate::imdb;
use crate::text::{chars_of, nat_text, string_of, trim_chars, trim_spaces, u64_text};

verus! {

pub const CINEMETA_BASE: &'static str = "https://v3-cinemeta.strem.io";

pub const CINEMETA_CATALOG_HOST: &'static str = "https://cinemeta-catalogs.strem.io";

pub const CINEMETA_IMAGES: &'static str = "https://images.metahub.space";

pub const CINEMETA_EPISODES: &'static str = "https://episodes.metahub.space";

/// A trailer reference of a title.
#[derive(Debug, Clone)]
pub struct CinemetaTrailer {
    pub source: Option<String>,
    pub kind: Option<String>,
}

/// One episode (or other video) listed under a series.
#[derive(Debug, Clone)]
pub struct CinemetaVideo {
    pub id: String,
    pub name: Option<String>,
    pub season: Option<i32>,
    pub number: Option<i32>,
    pub episode: Option<i32>,
    pub first_aired: Option<String>,
    pub released: Option<String>,
    pub overview: Option<String>,
    pub description: Option<String>,
    pub thumbnail: Option<String>,
    pub rating: Option<String>,
}

#[derive(Debug, Clone, Copy, PartialEq, Eq, Structural)]
pub enum CinemetaKind {
    Movie,
    Series,
}

/// The add-on's name for a kind.
pub open spec fn kind_name(k: CinemetaKind) -> Seq<char> {
    match k {
        CinemetaKind::Movie => "movie"@,
        CinemetaKind::Series => "series"@,
    }
}

impl CinemetaKind {
    pub fn as_str(&self) -> (s: &'static str)
        ensures
            s@ == kind_name(*self),
    {
        match self {
            CinemetaKind::Movie => "movie",
            CinemetaKind::Series => "series",
        }
    }
}

pub fn looks_like_imdb_id(id: &str) -> (r: bool)
    ensures
        r == imdb::imdb_id_shape(id@),
{
    imdb::looks_like_imdb_id(id)
}

pub fn image_base() -> (s: &'static str)
    ensures
        s@ == CINEMETA_IMAGES@,
{
    CINEMETA_IMAGES
}

pub fn episodes_base() -> (s: &'static str)
    ensures
        s@ == CINEMETA_EPISODES@,
{
    CINEMETA_EPISODES
}

/// The URL of a title lookup, `{BASE}/meta/{kind}/{id}.json`, with the id
/// trimmed; a malformed id is refused.
pub open spec fn title_url(kind: CinemetaKind, imdb_id: Seq<char>) -> Result<Seq<char>, Seq<char>> {
    let id = trim_spaces(imdb_id);
    if imdb::imdb_id_shape(id) {
        Ok(CINEMETA_BASE@ + "/meta/"@ + kind_name(kind) + "/"@ + id + ".json"@)
    } else {
        Err("[CINEMETA] not an IMDb id: "@ + id)
    }
}

/// A title lookup names the kind asked for: a series is looked up under
/// `/meta/series/`, a movie under `/meta/movie/`, each followed by the
/// trimmed id and `.json`; both kinds accept exactly the same ids, and the
/// two lookups of one id never coincide.
pub proof fn lemma_title_url_names_kind(imdb_id: Seq<char>)
    ensures
        title_url(CinemetaKind::Series, imdb_id) is Ok <==> title_url(CinemetaKind::Movie, imdb_id) is Ok,
        title_url(CinemetaKind::Series, imdb_id) is Ok ==> title_url(CinemetaKind::Series, imdb_id)
            == Ok::<Seq<char>, Seq<char>>(
            CINEMETA_BASE@ + "/meta/series/"@ + trim_spaces(imdb_id) + ".json"@,
        ),
        title_url(CinemetaKind::Movie, imdb_id) is Ok ==> title_url(CinemetaKind::Movie, imdb_id)
            == Ok::<Seq<char>, Seq<char>>(
            CINEMETA_BASE@ + "/meta/movie/"@ + trim_spaces(imdb_id) + ".json"@,
        ),
        title_url(CinemetaKind::Movie, imdb_id) is Ok ==> title_url(CinemetaKind::Movie, imdb_id) != title_url(
            CinemetaKind::Series,
            imdb_id,
        ),
{
    reveal_strlit("/meta/");
    reveal_strlit("/meta/series/");
    reveal_strlit("/meta/movie/");
    reveal_strlit("series");
    reveal_strlit("movie");
    reveal_strlit("/");
    let id = trim_spaces(imdb_id);
    if imdb::imdb_id_shape(id) {
        let b = CINEMETA_BASE@;
        let s = b + "/meta/"@ + "series"@ + "/"@ + id + ".json"@;
        let m = b + "/meta/"@ + "movie"@ + "/"@ + id + ".json"@;
        assert(s =~= b + "/meta/series/"@ + id + ".json"@);
        assert(m =~= b + "/meta/movie/"@ + id + ".json"@);
        assert(s[b.len() + 6int] == 's');
        assert(m[b.len() + 6int] == 'm');
    }
}

/// The request behind `get_title`.
pub fn title_request_url(kind: CinemetaKind, imdb_id: &str) -> (r: Result<String, String>)
    ensures
        crate::balloon::text_result(r) == title_url(kind, imdb_id@),
{
    let id = string_of(&trim_chars(&chars_of(imdb_id)));
    if !imdb::looks_like_imdb_id(id.as_str()) {
        let mut e = "[CINEMETA] not an IMDb id: ".to_owned();
        e.append(id.as_str());
        return Err(e);
    }
    let mut url = CINEMETA_BASE.to_owned();
    url.append("/meta/");
    url.append(kind.as_str());
    url.append("/");
    url.append(id.as_str());
    url.append(".json");
    Ok(url)
}

/// The catalog search URL, or none when the trimmed query is empty (the
/// search then answers with no titles).
pub open spec fn catalog_search_url(kind: CinemetaKind, query: Seq<char>, limit: nat) -> Option<
    Seq<char>,
> {
    let q = trim_spaces(query);
    if q.len() == 0 {
        None
    } else {
        Some(
            CINEMETA_BASE@ + "/"@ + kind_name(kind) + "/"@ + "top"@ + ".json?search="@
                + percent_encoded(encode_utf8(q)) + "&limit="@ + nat_text(limit),
        )
    }
}

/// The request behind `search_catalog` and `search`.
pub fn search_request_url(kind: CinemetaKind, query: &str, limit: usize) -> (r: Option<String>)
    ensures
        match r {
            None => catalog_search_url(kind, query@, limit as nat) is None,
            Some(url) => catalog_search_url(kind, query@, limit as nat) == Some(url@),
        },
{
    let trimmed = trim_chars(&chars_of(query));
    if trimmed.len() == 0 {
        return None;
    }
    let q = string_of(&trimmed);
    let mut url = CINEMETA_BASE.to_owned();
    url.append("/");
    url.append(kind.as_str());
    url.append("/");
    url.append("top");
    url.append(".json?search=");
    url.append(encode_query(q.as_str()).as_str());
    url.append("&limit=");
    url.append(u64_text(limit as u64).as_str());
    Some(url)
}

/// The "top" catalog URL on `host`, limited to `limit` titles.
pub open spec fn top_catalog_url(host: Seq<char>, kind: CinemetaKind, limit: nat) -> Seq<char> {
    host + "/"@ + kind_name(kind) + "/"@ + "top"@ + ".json?limit="@ + nat_text(limit)
}

fn top_catalog_request_url(host: &str, kind: CinemetaKind, limit: usize) -> (r: String)
    ensures
        r@ == top_catalog_url(host@, kind, limit as nat),
{
    let mut url = host.to_owned();
    url.append("/");
    url.append(kind.as_str());
    url.append("/");
    url.append("top");
    url.append(".json?limit=");
    url.append(u64_text(limit as u64).as_str());
    url
}

/// The request behind `trending`.
pub fn trending_request_url(kind: CinemetaKind, per_type_limit: usize) -> (r: String)
    ensures
        r@ == top_catalog_url(CINEMETA_BASE@, kind, per_type_limit as nat),
{
    top_catalog_request_url(CINEMETA_BASE, kind, per_type_limit)
}

/// The request behind `trending_direct`, on the catalog host itself.
pub fn trending_direct_request_url(kind: CinemetaKind, per_type_limit: usize) -> (r: String)
    ensures
        r@ == top_catalog_url(CINEMETA_CATALOG_HOST@, kind, per_type_limit as nat),
{
    top_catalog_request_url(CINEMETA_CATALOG_HOST, kind, per_type_limit)
}

/// The first `limit` titles of a catalog answer, in order.
pub fn take_titles<T>(titles: Vec<T>, limit: usize) -> (r: Vec<T>)
    ensures
        r@ == (if limit < titles@.len() {
            titles@.take(limit as int)
        } else {
            titles@
        }),
{
    let mut t = titles;
    t.truncate(limit);
    t
}

} // verus!
