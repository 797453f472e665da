use adaptalk::config::{
    default_config_path, load, load_from, read_settings, restricted_mode, validate, ConfigError, FileConfig,
    FileRead, TomlEntry, DEFAULT_ADAPT_ENDPOINT, DEFAULT_STREAM_DELAY_MS,
};

fn text(text: &str) -> FileRead {
    FileRead::Text(text.into())
}

#[test]
fn defaults_endpoint() {
    let c = load_from("default", text("bearer_token = 'secret'")).ok().unwrap();
    assert_eq!(c.endpoint, DEFAULT_ADAPT_ENDPOINT);
    assert!(!c.debug_text().contains("secret"));
    assert_eq!(c.bearer_token, "secret");
    assert_eq!(c.source, "default");
    assert_eq!(c.stream_delay_ms, DEFAULT_STREAM_DELAY_MS);
}

#[test]
fn override_endpoint() {
    assert_eq!(
        load_from(
            "override",
            text("bearer_token='s'\nendpoint='https://staging.example/mcp'")
        )
        .ok()
        .unwrap()
        .endpoint,
        "https://staging.example/mcp"
    );
}

#[test]
fn missing_and_malformed_are_distinct() {
    assert!(matches!(
        load_from("missing", FileRead::Missing),
        Err(ConfigError::Missing { .. })
    ));
    assert!(matches!(
        load_from("missing", text("=")),
        Err(ConfigError::Malformed { .. })
    ));
}

#[test]
fn missing_token_is_distinct() {
    assert!(matches!(
        load_from("token", text("endpoint='https://x'")),
        Err(ConfigError::MissingToken { .. })
    ));
}

#[test]
fn a_blank_token_is_missing() {
    assert!(matches!(
        load_from("token", text("bearer_token = ' \\t'")),
        Ok(_)
    ));
    assert!(matches!(
        load_from("token", text("bearer_token = \" \\t\\n\"")),
        Err(ConfigError::MissingToken { .. })
    ));
    assert!(matches!(
        load_from("token", text("bearer_token = ''")),
        Err(ConfigError::MissingToken { .. })
    ));
}

#[test]
fn only_https_endpoints_are_accepted() {
    for endpoint in ["http://x", "ftp://x", "", "HTTPS://x", " https://x"] {
        assert!(matches!(
            load_from(
                "p",
                text(&format!("bearer_token='s'\nendpoint='{endpoint}'"))
            ),
            Err(ConfigError::InvalidEndpoint { .. })
        ));
    }
}

#[test]
fn settings_have_their_types() {
    for document in [
        "bearer_token = 1",
        "bearer_token = ['s']",
        "bearer_token = 's'\nendpoint = true",
        "bearer_token = 's'\nstream_delay_ms = '35'",
        "bearer_token = 's'\nstream_delay_ms = -1",
        "bearer_token = 's'\nstream_delay_ms = 1.5",
        "bearer_token = 's'\nbearer_token = 't'",
        "bearer_token = 's'\nother = 999999999999999999999999999999999999999999",
    ] {
        assert!(
            matches!(
                load_from("p", text(document)),
                Err(ConfigError::Malformed { .. })
            ),
            "{document}"
        );
    }
}

#[test]
fn unknown_settings_are_skipped() {
    let c = load_from(
        "p",
        text("other = 18446744073709551615\nbearer_token = 's'\nstream_delay_ms = 0\n[table]\na = [1, { b = 2 }]\nd = 2024-01-01\n"),
    )
    .ok()
    .unwrap();
    assert_eq!(c.stream_delay_ms, 0);
    let c = load_from(
        "p",
        text("bearer_token = 's'\nstream_delay_ms = 18446744073709551615"),
    )
    .ok()
    .unwrap();
    assert_eq!(c.stream_delay_ms, u64::MAX);
}

#[test]
fn unreadable_files_are_reported() {
    assert!(matches!(
        load_from("p", FileRead::Unreadable),
        Err(ConfigError::Read { .. })
    ));
}

#[test]
fn the_default_path_is_below_the_home_directory() {
    assert_eq!(
        default_config_path(Some("/home/me")),
        Ok("/home/me/.adapt/config.toml".to_owned())
    );
    assert_eq!(
        default_config_path(None),
        Err(ConfigError::Missing {
            path: "~/.adapt/config.toml".into()
        })
    );
    let c = load(Some("/home/me/"), text("bearer_token = 's'")).ok().unwrap();
    assert_eq!(c.source, "/home/me/.adapt/config.toml");
    assert!(matches!(
        load(None, text("bearer_token = 's'")),
        Err(ConfigError::Missing { .. })
    ));
}

#[test]
fn entries_decide_the_settings() {
    let entry = |key: &str, text: Option<&str>, number: Option<u64>, skippable: bool| TomlEntry {
        key: key.into(),
        text: text.map(str::to_owned),
        number,
        skippable,
    };
    assert_eq!(
        read_settings(&vec![
            entry("bearer_token", Some("t"), None, true),
            entry("x", None, None, true),
            entry("stream_delay_ms", None, Some(7), true),
        ]),
        Some(FileConfig {
            bearer_token: Some("t".into()),
            endpoint: None,
            stream_delay_ms: Some(7),
        })
    );
    assert_eq!(read_settings(&vec![entry("x", None, None, false)]), None);
    assert_eq!(
        read_settings(&vec![
            entry("endpoint", Some("a"), None, true),
            entry("endpoint", Some("a"), None, true),
        ]),
        None
    );
    assert!(validate(
        "p",
        FileConfig {
            bearer_token: Some("t".into()),
            endpoint: Some("https://x".into()),
            stream_delay_ms: None,
        }
    )
    .is_ok());
}

#[test]
fn config_errors_have_their_messages() {
    let path = || "p".to_owned();
    assert_eq!(
        ConfigError::Missing { path: path() }.message(),
        "Adapt configuration is missing at p; create it with a bearer_token"
    );
    assert_eq!(
        ConfigError::Malformed { path: path() }.message(),
        "Adapt configuration at p is malformed TOML"
    );
    assert_eq!(
        ConfigError::MissingToken { path: path() }.message(),
        "Adapt configuration at p does not contain a bearer_token"
    );
    assert_eq!(
        ConfigError::InvalidEndpoint { path: path() }.message(),
        "Adapt configuration at p has an invalid endpoint"
    );
    assert_eq!(
        ConfigError::Exposed { path: path() }.message(),
        "could not restrict the permissions of Adapt configuration at p; run chmod 600 on it"
    );
    assert_eq!(
        ConfigError::Read { path: path() }.message(),
        "could not read Adapt configuration at p"
    );
}

#[test]
fn shown_configurations_are_quoted_like_debug() {
    let c = load_from("a\"b", text("bearer_token = 'secret'")).ok().unwrap();
    assert_eq!(
        c.debug_text(),
        "AdaptConfig { bearer_token: \"[redacted]\", endpoint: \"https://mcp.adapt.ai/mcp\", source: \"a\\\"b\" }"
    );
}

#[test]
fn credential_files_are_for_their_owner_only() {
    assert_eq!(restricted_mode(0o100600), None);
    assert_eq!(restricted_mode(0o100400), None);
    assert_eq!(restricted_mode(0o100644), Some(0o100600));
    assert_eq!(restricted_mode(0o777), Some(0o700));
    assert_eq!(
        load_from("/c.toml", FileRead::Exposed).err(),
        Some(ConfigError::Exposed {
            path: "/c.toml".into()
        })
    );
}
