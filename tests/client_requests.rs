use artifetch::provider::github::client::{
    classify_status, if_none_match, is_success, Client, Error, StatusClass, AUTHORIZATION, ETAG,
};
use artifetch::ETag;

#[test]
fn public_client_urls() {
    let c = Client::build("abc").ok().expect("client");
    assert_eq!(c.authorization(), "token abc");
    assert_eq!(c.releases_url("fnichol", "names"), "https://api.github.com/repos/fnichol/names/releases");
    assert_eq!(
        c.latest_release_url("fnichol", "names"),
        "https://api.github.com/repos/fnichol/names/releases/latest"
    );
    assert_eq!(
        c.manifest_url("fnichol", "names", 10),
        "https://api.github.com/repos/fnichol/names/releases/assets/10"
    );
    assert_eq!(c.url("/x", Some("a=1")), "https://api.github.com/x?a=1");
}

#[test]
fn enterprise_client_uses_api_v3() {
    let c = Client::build_for_enterprise("ghe.corp", "t").ok().expect("client");
    assert_eq!(c.domain(), "ghe.corp/api/v3");
    assert_eq!(c.manifest_url("o", "n", 1234567890), "https://ghe.corp/api/v3/repos/o/n/releases/assets/1234567890");
}

#[test]
fn invalid_token_is_rejected() {
    assert!(matches!(Client::build("a\nb"), Err(Error::InvalidHeaderValue(n)) if n == AUTHORIZATION));
}

#[test]
fn etag_header_is_checked() {
    assert!(matches!(if_none_match(None), Ok(None)));
    let e = ETag::new("W/\"abc\"");
    assert_eq!(if_none_match(Some(&e)).ok().flatten(), Some("W/\"abc\"".to_string()));
    let bad = ETag::new("a\u{7f}");
    assert!(matches!(if_none_match(Some(&bad)), Err(Error::InvalidHeaderValue(n)) if n == ETAG));
}

#[test]
fn statuses_are_classified() {
    assert_eq!(classify_status(304), StatusClass::NotModified);
    assert_eq!(classify_status(200), StatusClass::Success);
    assert_eq!(classify_status(299), StatusClass::Success);
    assert_eq!(classify_status(404), StatusClass::NotFound);
    assert_eq!(classify_status(403), StatusClass::Failure);
    assert_eq!(classify_status(500), StatusClass::Failure);
    assert!(is_success(204));
    assert!(!is_success(302));
}

#[test]
fn etag_text_is_kept() {
    let e = ETag::from_str("\"xyz\"").ok().expect("etag");
    assert_eq!(e.as_str(), "\"xyz\"");
    assert_eq!(e.as_ref(), "\"xyz\"");
}
