use base64::engine::general_purpose::STANDARD;
use base64::Engine;
use dependaboard::auth::{
    admission, authenticated_dashboard_user, cross_site, user_of_credentials, Admission,
    RequestOrigin, CHALLENGE,
};
use dependaboard::model::UserId;

fn basic(credentials: &str) -> Vec<u8> {
    format!("Basic {}", STANDARD.encode(credentials)).into_bytes()
}

fn user(authorization: &[u8], username: &str, password: &str) -> Option<UserId> {
    authenticated_dashboard_user(Some(authorization), username, password)
}

#[test]
fn authenticated_user_comes_from_validated_basic_credentials() {
    let headers = basic("dependaboard:secret");
    assert_eq!(
        user(&headers, "dependaboard", "secret"),
        Some(UserId::new("dependaboard"))
    );
    assert_eq!(user(&headers, "dependaboard", "wrong"), None);
}

#[test]
fn a_partial_match_on_either_credential_is_refused() {
    assert_eq!(user(&basic("someone:secret"), "dependaboard", "secret"), None);
    assert_eq!(
        user(&basic("dependaboard:secret-longer"), "dependaboard", "secret"),
        None
    );
    assert_eq!(user(&basic("dependaboard:"), "dependaboard", "secret"), None);
    assert_eq!(user(&basic("dependaboard"), "dependaboard", "secret"), None);
}

#[test]
fn a_header_that_holds_no_credentials_authenticates_nobody() {
    assert_eq!(authenticated_dashboard_user(None, "dependaboard", "secret"), None);
    for header in [
        &b""[..],
        b"Basic",
        b"Basic ",
        b"basic ZGVwZW5kYWJvYXJkOnNlY3JldA==",
        b"Bearer ZGVwZW5kYWJvYXJkOnNlY3JldA==",
        b"Basic ZGVwZW5kYWJvYXJkOnNlY3JldA",
        b"Basic not base64",
        b"Basic \xff",
        // A lone continuation byte is no UTF-8.
        b"Basic gA==",
    ] {
        assert_eq!(user(header, "dependaboard", "secret"), None, "{header:?}");
    }
}

#[test]
fn a_password_may_hold_colons_and_any_text() {
    assert_eq!(
        user(&basic("dependaboard:a:b:\u{e9}\u{1f512}"), "dependaboard", "a:b:\u{e9}\u{1f512}"),
        Some(UserId::new("dependaboard"))
    );
    assert_eq!(
        user_of_credentials(Some(b"octocat::".to_vec()), "octocat", ":"),
        Some(UserId::new("octocat"))
    );
    assert_eq!(user_of_credentials(None, "octocat", ":"), None);
}

/// A POST to `dashboard.example` with these headers.
fn post(headers: &[(&str, &str)]) -> RequestOrigin {
    let value = |wanted: &str| {
        headers
            .iter()
            .find(|(name, _)| *name == wanted)
            .map(|(_, value)| value.as_bytes().to_vec())
    };
    RequestOrigin {
        method: "POST".to_owned(),
        sec_fetch_site: value("sec-fetch-site"),
        origin: value("origin"),
        host: Some(b"dashboard.example".to_vec()),
        authority: None,
    }
}

#[test]
fn fetch_metadata_tells_the_dashboards_own_requests_from_another_sites() {
    assert!(!cross_site(&post(&[("sec-fetch-site", "same-origin")])));
    assert!(cross_site(&post(&[("sec-fetch-site", "cross-site")])));
}

#[test]
fn a_sibling_site_is_refused_and_a_user_initiated_request_is_not() {
    assert!(cross_site(&post(&[("sec-fetch-site", "same-site")])));
    assert!(!cross_site(&post(&[("sec-fetch-site", "none")])));
}

#[test]
fn without_fetch_metadata_the_origin_is_held_against_the_host() {
    assert!(!cross_site(&post(&[("origin", "https://dashboard.example")])));
    assert!(!cross_site(&post(&[("origin", "http://dashboard.example")])));
    assert!(cross_site(&post(&[("origin", "https://evil.example")])));
    assert!(cross_site(&post(&[("origin", "https://dashboard.example.evil.example")])));
    assert!(cross_site(&post(&[("origin", "null")])));
    assert!(!cross_site(&post(&[])));
}

#[test]
fn hosts_are_compared_without_regard_to_case_and_with_their_ports() {
    assert!(!cross_site(&post(&[("origin", "https://Dashboard.EXAMPLE")])));
    assert!(cross_site(&post(&[("origin", "https://dashboard.example:8443")])));
    let mut ported = post(&[("origin", "https://dashboard.example:8443")]);
    ported.host = Some(b"dashboard.example:8443".to_vec());
    assert!(!cross_site(&ported));
}

#[test]
fn the_targets_own_authority_stands_in_for_a_missing_or_unreadable_host() {
    for host in [None, Some(vec![0xff])] {
        let mut request = post(&[("origin", "https://dashboard.example")]);
        request.host = host;
        assert!(cross_site(&request), "nothing to hold the origin against");
        request.authority = Some(b"dashboard.example".to_vec());
        assert!(!cross_site(&request));
    }
    let mut garbled = post(&[]);
    garbled.origin = Some(b"https://dashboard.example\xff".to_vec());
    assert!(cross_site(&garbled));
}

#[test]
fn a_request_that_cannot_change_state_is_never_refused() {
    for method in ["GET", "HEAD", "OPTIONS"] {
        let mut page = post(&[("sec-fetch-site", "cross-site")]);
        page.method = method.to_owned();
        assert!(!cross_site(&page), "{method}");
    }
    let mut other = post(&[("sec-fetch-site", "cross-site")]);
    other.method = "get".to_owned();
    assert!(cross_site(&other), "methods are told apart by case");
}

#[test]
fn a_request_without_credentials_is_told_how_to_authenticate() {
    let asked = admission(None, "dependaboard", "secret", &post(&[]));

    assert_eq!(asked, Admission::Challenge);
    assert_eq!(asked.status(), Some(401));
    assert_eq!(asked.message(), Some("authentication required"));
    assert_eq!(CHALLENGE, "Basic realm=\"dependaboard\"");
}

#[test]
fn a_state_change_another_site_asked_for_is_refused_despite_the_credentials() {
    let header = basic("dependaboard:secret");
    let decide = |authorization: Option<&[u8]>, site: &str| {
        admission(
            authorization,
            "dependaboard",
            "secret",
            &post(&[("sec-fetch-site", site)]),
        )
    };

    let refused = decide(Some(&header), "cross-site");
    assert_eq!(refused, Admission::Refuse);
    assert_eq!(refused.status(), Some(403));
    assert_eq!(refused.message(), Some("cross-site request refused"));

    let own = decide(Some(&header), "same-origin");
    assert_eq!(own, Admission::Pass(UserId::new("dependaboard")));
    assert_eq!((own.status(), own.message()), (None, None));

    assert_eq!(
        decide(None, "cross-site"),
        Admission::Challenge,
        "the refusal is only told to a caller who authenticated"
    );
}
