use dependaboard::config::{blank, github_installation_id, Config};

fn env(pairs: &[(&str, &str)]) -> impl Fn(&str) -> Option<String> {
    let pairs: Vec<(String, String)> = pairs
        .iter()
        .map(|(name, value)| ((*name).to_owned(), (*value).to_owned()))
        .collect();
    move |name| {
        pairs
            .iter()
            .find(|(candidate, _)| candidate == name)
            .map(|(_, value)| value.clone())
    }
}

const COMPLETE: &[(&str, &str)] = &[
    ("DASHBOARD_USERNAME", "octocat"),
    ("DASHBOARD_PASSWORD", "hunter2"),
    ("GITHUB_WEBHOOK_SECRET", "whsec"),
    ("GITHUB_INSTALLATION_ID", "42"),
    ("RESTATE_INGRESS_URL", "https://ingress.example/"),
    ("RESTATE_AUTH_TOKEN", "token"),
];

fn token(config: &Config) -> Option<&str> {
    config.restate.token.as_deref()
}

fn refusal(pairs: &[(&str, &str)]) -> String {
    Config::parse(env(pairs)).err().expect("the environment is refused")
}

fn settings(pairs: &[(&str, &str)]) -> Config {
    Config::parse(env(pairs)).ok().expect("the environment is complete")
}

#[test]
fn a_complete_environment_parses_into_the_settings() {
    let config = settings(COMPLETE);

    assert_eq!(config.credentials.username, "octocat");
    assert_eq!(config.credentials.password, "hunter2");
    assert_eq!(config.webhook_secret, "whsec");
    assert_eq!(config.installation_id, 42);
    assert_eq!(config.restate.base, "https://ingress.example");
    assert_eq!(token(&config), Some("token"));
}

fn without(name: &str) -> Vec<(&'static str, &'static str)> {
    COMPLETE
        .iter()
        .copied()
        .filter(|(candidate, _)| *candidate != name)
        .collect()
}

#[test]
fn a_missing_required_variable_is_named_in_the_error() {
    for name in [
        "DASHBOARD_PASSWORD",
        "GITHUB_WEBHOOK_SECRET",
        "GITHUB_INSTALLATION_ID",
    ] {
        let error = refusal(&without(name));
        assert!(error.contains(name), "{name}: {error}");
        assert_eq!(error, format!("{name} must be configured"));

        let mut blank = without(name);
        blank.push((name, "  "));
        let error = refusal(&blank);
        assert!(error.contains(name), "blank {name}: {error}");
    }
}

#[test]
fn the_username_and_ingress_have_defaults_and_the_token_is_optional() {
    let config = settings(&[
        ("DASHBOARD_PASSWORD", "hunter2"),
        ("GITHUB_WEBHOOK_SECRET", "whsec"),
        ("GITHUB_INSTALLATION_ID", "42"),
    ]);

    assert_eq!(config.credentials.username, "dependaboard");
    assert_eq!(config.restate.base, "http://127.0.0.1:8080");
    assert_eq!(token(&config), None);
}

#[test]
fn an_installation_id_that_is_not_a_number_is_refused() {
    let mut pairs = without("GITHUB_INSTALLATION_ID");
    pairs.push(("GITHUB_INSTALLATION_ID", "forty-two"));

    let error = refusal(&pairs);

    assert!(error.contains("GITHUB_INSTALLATION_ID"), "{error}");
    assert_eq!(error, "GITHUB_INSTALLATION_ID must be an integer");
}

#[test]
fn the_restate_api_key_stands_in_for_an_absent_or_blank_auth_token() {
    let mut pairs = without("RESTATE_AUTH_TOKEN");
    pairs.push(("RESTATE_API_KEY", "key"));
    assert_eq!(token(&settings(&pairs)), Some("key"));

    pairs.push(("RESTATE_AUTH_TOKEN", ""));
    assert_eq!(token(&settings(&pairs)), Some("key"));
}

#[test]
fn the_first_variable_missing_is_the_one_named() {
    assert_eq!(refusal(&[]), "DASHBOARD_PASSWORD must be configured");
    assert_eq!(
        refusal(&[("DASHBOARD_PASSWORD", "hunter2")]),
        "GITHUB_WEBHOOK_SECRET must be configured"
    );
}

#[test]
fn a_blank_is_whatever_white_space_unicode_has() {
    for text in ["", " ", "\t\r\n", "\u{a0}\u{2003}\u{3000}\u{85}\u{1680}\u{202f}\u{205f}\u{2028}"] {
        assert!(blank(text), "{text:?}");
        assert_eq!(blank(text), text.trim().is_empty());
    }
    for text in ["x", " x ", "\u{200b}", "\u{180e}", "\u{feff}"] {
        assert!(!blank(text), "{text:?}");
        assert_eq!(blank(text), text.trim().is_empty());
    }
    assert!((0..=0x10ffffu32).filter_map(char::from_u32).all(|c| {
        blank(&c.to_string()) == c.is_whitespace()
    }));
}

#[test]
fn the_installation_id_is_read_from_its_variable() {
    assert_eq!(github_installation_id(Some("42")), Ok(42));
    assert_eq!(
        github_installation_id(None),
        Err("GITHUB_INSTALLATION_ID is not configured".to_owned())
    );
    assert_eq!(
        github_installation_id(Some("")),
        Err("GITHUB_INSTALLATION_ID must be an integer".to_owned())
    );
}
