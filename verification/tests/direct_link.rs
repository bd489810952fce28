use slasshyvault::direct_link::{
    check_direct_link_url, is_supported_compression, parse_content_disposition_filename,
};

#[test]
fn validate_url_rejects_ftp_scheme() {
    let err = check_direct_link_url("ftp://example.com/file.zip").unwrap_err();
    assert!(err.contains("HTTPS URLs are allowed"));
}

#[test]
fn validate_url_rejects_private_ip_10() {
    let err = check_direct_link_url("http://10.0.0.1/file.zip").unwrap_err();
    assert!(err.contains("Private") || err.contains("internal"));
}

#[test]
fn validate_url_rejects_private_ip_192_168() {
    let err = check_direct_link_url("http://192.168.1.1/file.zip").unwrap_err();
    assert!(err.contains("Private") || err.contains("internal"));
}

#[test]
fn parse_content_disposition_parses_simple_filename() {
    let result =
        parse_content_disposition_filename("attachment; filename=\"myfile.zip\"");
    assert_eq!(result, Some("myfile.zip".to_string()));
}

#[test]
fn parse_content_disposition_parses_rfc5987_encoded() {
    let result = parse_content_disposition_filename(
        "attachment; filename*=UTF-8''my%20file%20%281%29.zip",
    );
    assert_eq!(result, Some("my file (1).zip".to_string()));
}

#[test]
fn parse_content_disposition_returns_none_for_empty() {
    assert_eq!(parse_content_disposition_filename(""), None);
    assert_eq!(
        parse_content_disposition_filename("attachment"),
        None
    );
}

#[test]
fn parse_content_disposition_takes_first_match() {
    // When filename* appears first, it wins (left-to-right scan)
    let result = parse_content_disposition_filename(
        "attachment; filename*=UTF-8''preferred.zip; filename=\"fallback.zip\"",
    );
    assert_eq!(result, Some("preferred.zip".to_string()));

    // When filename appears first, it wins
    let result2 = parse_content_disposition_filename(
        "attachment; filename=\"first.zip\"; filename*=UTF-8''second.zip",
    );
    assert_eq!(result2, Some("first.zip".to_string()));
}

#[test]
fn parse_content_disposition_unquoted_filename() {
    let result = parse_content_disposition_filename("attachment; filename=data.zip");
    assert_eq!(result, Some("data.zip".to_string()));
}

#[test]
fn is_supported_compression_accepts_stored_and_deflate() {
    assert!(is_supported_compression(0)); // Stored
    assert!(is_supported_compression(8)); // Deflate
}

#[test]
fn is_supported_compression_rejects_other_methods() {
    assert!(!is_supported_compression(1)); // Shrunk
    assert!(!is_supported_compression(6));
    assert!(!is_supported_compression(9)); // Deflate64
    assert!(!is_supported_compression(12)); // BZIP2
    assert!(!is_supported_compression(14)); // LZMA
    assert!(!is_supported_compression(99));
}
