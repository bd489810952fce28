use slasshyvault::balloon::{encode_query, popular_request_url, search_request_url};
use slasshyvault::cinemeta::CinemetaKind;
use slasshyvault::imdb;

#[test]
fn encode_query_spaces_and_specials() {
    assert_eq!(encode_query("a b c"), "a%20b%20c");
    assert_eq!(encode_query("God of War"), "God%20of%20War");
}

#[test]
fn looks_like_imdb_id_matches_imdb_api() {
    assert!(slasshyvault::balloon::looks_like_imdb_id("tt0133093"));
    assert!(!slasshyvault::balloon::looks_like_imdb_id("nm0000206"));
    assert!(!slasshyvault::balloon::looks_like_imdb_id(""));
    assert!(!slasshyvault::balloon::looks_like_imdb_id("tt"));
    // the same rule as the IMDb module's
    for id in ["tt0133093", "nm0000206", "", "tt", "tt12a"] {
        assert_eq!(
            slasshyvault::balloon::looks_like_imdb_id(id),
            imdb::looks_like_imdb_id(id)
        );
    }
}

/// An empty or blank query makes no request: the search answers with an
/// empty page.
#[test]
fn movie_search_empty_query_returns_empty() {
    assert!(search_request_url("movie", "").is_none());
    assert!(search_request_url("tv", "   ").is_none());
    assert!(search_request_url("multi", "").is_none());
}

#[test]
fn popular_validates_kind() {
    assert!(popular_request_url("all").is_ok());
    assert!(popular_request_url("movie").is_ok());
    assert!(popular_request_url("tv").is_ok());
    assert!(popular_request_url("bogus").is_err());
}

#[test]
fn kind_serializes_correctly() {
    assert_eq!(CinemetaKind::Movie.as_str(), "movie");
    assert_eq!(CinemetaKind::Series.as_str(), "series");
}

/// An empty or blank query makes no request: the search answers with no
/// titles.
#[test]
fn empty_search_returns_empty() {
    assert!(slasshyvault::cinemeta::search_request_url(CinemetaKind::Movie, "", 10).is_none());
    assert!(slasshyvault::cinemeta::search_request_url(CinemetaKind::Movie, "   ", 10).is_none());
}
