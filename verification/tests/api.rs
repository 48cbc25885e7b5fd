use eli_lib::api::{
    download_latest_alpha, latest_beta_version, parse_alpha_download_info,
    parse_alpha_version_response, parse_iso_download_info, validate_alpha_token,
    AlphaDataResponse, IsoDownloadInfoResponse, IsoInfoResponse,
};
use eli_lib::error::ErrorKind;

fn alpha(
    iso_version: Option<&str>,
    version: Option<&str>,
    iso_name: Option<&str>,
    name: Option<&str>,
) -> AlphaDataResponse {
    AlphaDataResponse {
        iso_version: iso_version.map(str::to_owned),
        version: version.map(str::to_owned),
        iso_name: iso_name.map(str::to_owned),
        name: name.map(str::to_owned),
    }
}

#[test]
fn accepts_alpha_data_legacy_field_names() {
    let info = parse_alpha_download_info(alpha(
        None,
        Some("Edgeless_Alpha_4.1.2"),
        None,
        Some("Edgeless_Alpha_4.1.2.wim"),
    ))
    .unwrap();

    assert_eq!(info.version.to_string(), "Edgeless_Alpha_4.1.2");
}

#[test]
fn prefers_hub_fields_when_the_api_returns_both_field_sets() {
    let info = parse_alpha_download_info(alpha(
        Some("4.1.2"),
        Some("9.9.9"),
        Some("Edgeless_Alpha_4.1.2.wim"),
        Some("Edgeless_Alpha_9.9.9.wim"),
    ))
    .unwrap();

    assert_eq!(info.version.to_string(), "Edgeless_Alpha_4.1.2");
    assert_eq!(info.name, "Edgeless_Alpha_4.1.2.wim");
}

#[test]
fn parses_alpha_version_without_requiring_a_download_name() {
    let version = parse_alpha_version_response(alpha(None, Some("4.1.2"), None, None)).unwrap();

    assert_eq!(version.to_string(), "Edgeless_Alpha_4.1.2");
}

#[test]
fn rejects_unavailable_alpha_releases() {
    let error =
        parse_alpha_download_info(alpha(Some("0.0.0"), None, Some(""), None)).unwrap_err();

    assert_eq!(error.kind(), ErrorKind::NotFound);
}

#[test]
fn rejects_alpha_file_names_that_do_not_match_the_reported_version() {
    let error = parse_alpha_download_info(alpha(
        Some("4.1.2"),
        None,
        Some("Edgeless_Alpha_4.1.3.wim"),
        None,
    ))
    .unwrap_err();

    assert_eq!(error.kind(), ErrorKind::InvalidData);
}

#[test]
fn rejects_alpha_tokens_outside_the_hub_length_limits() {
    let short = validate_alpha_token("abc").unwrap_err();
    let long = validate_alpha_token("abcdefghijk").unwrap_err();
    let six_emojis = validate_alpha_token("😀😀😀😀😀😀").unwrap_err();

    assert_eq!(short.kind(), ErrorKind::InvalidInput);
    assert_eq!(long.kind(), ErrorKind::InvalidInput);
    assert_eq!(six_emojis.kind(), ErrorKind::InvalidInput);
}

#[test]
fn counts_alpha_tokens_in_utf16_units() {
    assert!(validate_alpha_token("abcd").is_ok());
    assert!(validate_alpha_token("abcdefghij").is_ok());
    assert!(validate_alpha_token("😀😀").is_ok());
    assert!(validate_alpha_token("😀😀😀😀😀").is_ok());
}

#[test]
fn rejects_the_legacy_alpa_spelling_from_api_file_names() {
    let error = parse_alpha_download_info(alpha(
        Some("4.1.2"),
        None,
        Some("Edgeless_Alpa_4.1.2.wim"),
        None,
    ))
    .unwrap_err();

    assert_eq!(error.kind(), ErrorKind::InvalidData);
}

#[test]
fn rejects_a_non_canonical_alpha_wim_version() {
    let error = parse_alpha_download_info(alpha(
        Some("4.1.2"),
        None,
        Some("Edgeless_Alpha_04.01.002.wim"),
        None,
    ))
    .unwrap_err();

    assert_eq!(error.kind(), ErrorKind::InvalidData);
}

#[test]
fn reads_the_latest_beta_version() {
    let version = latest_beta_version(IsoInfoResponse { version: " 4.1.0 ".to_owned() }).unwrap();
    assert_eq!(version.to_string(), "Edgeless_Beta_4.1.0");
}

#[test]
fn iso_downloads_need_an_http_address() {
    let info = parse_iso_download_info(IsoDownloadInfoResponse {
        name: " Edgeless.iso ".to_owned(),
        url: " https://example.invalid/Edgeless.iso ".to_owned(),
    })
    .unwrap();
    assert_eq!(info.name, "Edgeless.iso");
    assert_eq!(info.url, "https://example.invalid/Edgeless.iso");

    let error = parse_iso_download_info(IsoDownloadInfoResponse {
        name: "Edgeless.iso".to_owned(),
        url: "ftp://example.invalid/Edgeless.iso".to_owned(),
    })
    .unwrap_err();
    assert_eq!(error.kind(), ErrorKind::InvalidData);
}

#[test]
fn alpha_downloads_carry_the_token() {
    let request = download_latest_alpha("abcdef").unwrap();
    assert_eq!(request.token, "abcdef");
    assert_eq!(request.url, "https://legacy.edgeless.top/api/v2/alpha/addr");
    assert_eq!(download_latest_alpha("abc").unwrap_err().kind(), ErrorKind::InvalidInput);
}

#[test]
fn service_answers_are_refused_with_their_reason() {
    let unavailable = parse_alpha_download_info(alpha(Some("0.0.0"), None, None, None)).unwrap_err();
    assert_eq!(unavailable.to_string(), "no Edgeless Alpha kernel is currently available");
    let mismatch =
        parse_alpha_download_info(alpha(Some("4.1.2"), None, Some("Edgeless_Alpha_4.1.3.wim"), None)).unwrap_err();
    assert_eq!(
        mismatch.to_string(),
        "Edgeless Alpha data API returned inconsistent version and WIM name: \"Edgeless_Alpha_4.1.3.wim\""
    );
    let alpa = parse_alpha_download_info(alpha(Some("4.1.2"), None, Some("Edgeless_Alpa_4.1.2.wim"), None)).unwrap_err();
    assert_eq!(alpa.to_string(), "Edgeless Alpha data API returned a non-Alpha WIM name: \"Edgeless_Alpa_4.1.2.wim\"");
    let iso = parse_alpha_download_info(alpha(Some("4.1.2"), None, Some("Edgeless_Alpha_4.1.2.iso"), None)).unwrap_err();
    assert_eq!(iso.to_string(), "Edgeless Alpha data API returned a non-WIM file name: \"Edgeless_Alpha_4.1.2.iso\"");
    let missing = parse_alpha_download_info(alpha(Some("4.1.2"), None, None, None)).unwrap_err();
    assert_eq!(missing.to_string(), "Edgeless Alpha data API did not return a WIM file name");
    assert_eq!(
        validate_alpha_token("abc").unwrap_err().to_string(),
        "Alpha token must contain between 4 and 10 characters"
    );
    let beta = latest_beta_version(IsoInfoResponse { version: "Edgeless_Alpha_4.1.0".to_owned() }).unwrap_err();
    assert_eq!(beta.to_string(), "Edgeless ISO info API returned a non-Beta version: \"Edgeless_Alpha_4.1.0\"");
}
