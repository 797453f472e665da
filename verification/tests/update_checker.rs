use adaptalk::update_checker::{
    check_latest_at, judge_release, parse_release, Release, UpdateCheckError, UpdateNotice, Version,
};

/// The release in a JSON body, as the release service sends it.
fn body(text: &str) -> Result<Release, serde_json::Error> {
    let value: serde_json::Value = serde_json::from_str(text)?;
    Ok(Release {
        tag_name: value["tag_name"].as_str().unwrap().to_owned(),
        html_url: value["html_url"].as_str().unwrap().to_owned(),
        draft: value["draft"].as_bool().unwrap(),
        prerelease: value["prerelease"].as_bool().unwrap(),
    })
}

fn release(tag: &str, draft: bool, prerelease: bool) -> Result<Release, serde_json::Error> {
    body(&format!(
        r#"{{"tag_name":"{tag}","html_url":"https://github.com/example/release","draft":{draft},"prerelease":{prerelease}}}"#
    ))
}

#[test]
fn newer_equal_older_and_v_prefix() {
    let installed = Version::new(1, 0, 0);
    assert!(
        parse_release(release("v2.0.0", false, false), installed.clone())
            .unwrap()
            .is_some()
    );
    assert!(
        parse_release(release("1.0.0", false, false), installed.clone())
            .unwrap()
            .is_none()
    );
    assert!(
        parse_release(release("0.9.0", false, false), installed)
            .unwrap()
            .is_none()
    );
}

#[test]
fn drafts_prereleases_and_malformed_input_are_ignored_or_rejected() {
    let v = Version::new(1, 0, 0);
    assert_eq!(
        parse_release(release("2.0.0", true, false), v.clone()).unwrap(),
        None
    );
    assert_eq!(
        parse_release(release("2.0.0", false, true), v.clone()).unwrap(),
        None
    );
    assert!(parse_release(body("not json"), v.clone()).is_err());
    assert!(parse_release(release("not-a-version", false, false), v).is_err());
}

#[test]
fn http_failures_are_suppressed_at_the_boundary() {
    let runtime = tokio::runtime::Builder::new_current_thread()
        .enable_all()
        .build()
        .unwrap();
    let error = runtime.block_on(async {
        let client = reqwest::Client::builder()
            .timeout(std::time::Duration::from_millis(10))
            .build()
            .unwrap();
        client.get("http://[malformed").send().await.err().unwrap()
    });
    assert!(check_latest_at("1.0.0", Err(error)).is_err());
}

#[test]
fn notices_carry_both_versions_and_the_page() {
    assert_eq!(
        parse_release(release(" vV1.2.3 ", false, false), Version::new(1, 2, 2)).unwrap(),
        Some(UpdateNotice {
            installed: Version::new(1, 2, 2),
            available: Version::new(1, 2, 3),
            url: "https://github.com/example/release".into(),
        })
    );
}

#[test]
fn versions_are_parsed_and_shown_alike() {
    for text in ["0.0.0", "1.2.3", "1.2.3-alpha.1", "1.2.3+build.01", "1.2.3-rc.2+x"] {
        assert_eq!(Version::parse(text).unwrap().text(), text);
    }
    for text in ["", "1", "1.2", "01.2.3", "1.2.3-", "v1.2.3", "1.2.3 ", "1.2.18446744073709551616"] {
        assert_eq!(Version::parse(text), None);
    }
    assert_eq!(Version::new(1, 2, 3).text(), "1.2.3");
    assert_eq!(Version::parse("1.2.3"), Some(Version::new(1, 2, 3)));
}

#[test]
fn versions_are_ordered_like_semver() {
    let version = |text: &str| Version::parse(text).unwrap();
    for (greater, smaller) in [
        ("2.0.0", "1.9.9"),
        ("1.10.0", "1.9.9"),
        ("1.0.10", "1.0.9"),
        ("1.0.0", "1.0.0-rc.1"),
        ("1.0.0-rc.10", "1.0.0-rc.9"),
        ("1.0.0-rc.1", "1.0.0-beta"),
        ("1.0.0+b", "1.0.0"),
    ] {
        assert!(version(greater).exceeds(&version(smaller)));
        assert!(!version(smaller).exceeds(&version(greater)));
        assert!(!version(greater).exceeds(&version(greater)));
    }
}

#[test]
fn releases_are_judged_by_their_version() {
    let release = || Release {
        tag_name: "x".into(),
        html_url: "u".into(),
        draft: false,
        prerelease: false,
    };
    assert!(matches!(
        judge_release(release(), None, Version::new(1, 0, 0)),
        Err(UpdateCheckError::InvalidReleaseVersion)
    ));
    assert!(judge_release(
        release(),
        Some(Version::new(1, 0, 1)),
        Version::new(1, 0, 0)
    )
    .unwrap()
    .is_some());
}

#[test]
fn the_installed_version_must_be_one() {
    assert!(matches!(
        check_latest_at("x", Ok(release("2.0.0", false, false))),
        Err(UpdateCheckError::InvalidInstalledVersion)
    ));
    assert!(check_latest_at("1.0.0", Ok(release("2.0.0", false, false)))
        .unwrap()
        .is_some());
    assert!(matches!(
        check_latest_at("1.0.0", Ok(body("{"))),
        Err(UpdateCheckError::Json(_))
    ));
    assert_eq!(
        UpdateCheckError::InvalidReleaseVersion.message(),
        "update check failed"
    );
}
