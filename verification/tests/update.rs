use irc_transport::update::{
    GitHubAsset, GitHubRelease, Platform, evaluate_release, get_app_version, get_asset_pattern,
    is_newer_version, parse_build_number, parse_version,
};

#[test]
fn test_get_app_version_defaults_to_zero() {
    assert_eq!(get_app_version(Some("0.2.4".to_string())), "0.2.4");
    assert_eq!(get_app_version(None), "0.0.0");
}

#[test]
fn test_parse_version() {
    assert_eq!(parse_version("v0.2.4"), Some("0.2.4".to_string()));
    assert_eq!(parse_version("v0.2.4-build5"), Some("0.2.4".to_string()));
    assert_eq!(parse_version("0.2.4"), Some("0.2.4".to_string()));
}

#[test]
fn test_parse_build_number() {
    assert_eq!(parse_build_number("v0.2.4-build5"), Some(5));
    assert_eq!(parse_build_number("v0.2.4-build123"), Some(123));
    assert_eq!(parse_build_number("v0.2.4"), None);
}

#[test]
fn test_is_newer_version() {
    // Different versions
    assert!(is_newer_version("0.2.3", "0.2.4", "v0.2.3", "v0.2.4"));
    assert!(!is_newer_version("0.2.4", "0.2.4", "v0.2.4", "v0.2.4"));
    assert!(!is_newer_version("0.2.5", "0.2.4", "v0.2.5", "v0.2.4"));

    // Same version, different build numbers
    assert!(is_newer_version("0.2.4", "0.2.4", "v0.2.4-build4", "v0.2.4-build5"));
    assert!(!is_newer_version("0.2.4", "0.2.4", "v0.2.4-build5", "v0.2.4-build4"));
    assert!(!is_newer_version("0.2.4", "0.2.4", "v0.2.4-build5", "v0.2.4-build5"));
}

#[test]
fn test_is_newer_version_falls_back_to_string_comparison() {
    // Unparsable versions compare as plain strings: any difference counts
    // as newer, equality does not.
    assert!(is_newer_version("abc", "abd", "x", "y"));
    assert!(!is_newer_version("abc", "abc", "x", "y"));
}

#[test]
fn test_parse_build_number_stops_at_first_build_part() {
    // The first dash-separated part starting with "build" decides, even
    // when it does not read as a number.
    assert_eq!(parse_build_number("v1-buildx-build5"), None);
    // Repeated "build" prefixes are all stripped before reading.
    assert_eq!(parse_build_number("v1-buildbuild7"), Some(7));
    // The standard unsigned parser accepts a leading plus sign.
    assert_eq!(parse_build_number("v1-build+5"), Some(5));
}

#[test]
fn test_get_asset_pattern() {
    assert_eq!(get_asset_pattern(Platform::Linux), ".AppImage");
    assert_eq!(get_asset_pattern(Platform::Windows), "-setup.exe");
    assert_eq!(get_asset_pattern(Platform::Android), "-debug.apk");
    assert_eq!(get_asset_pattern(Platform::Other), "");
}

fn sample_release() -> GitHubRelease {
    GitHubRelease {
        tag_name: "v0.2.4-build5".to_string(),
        name: "Release 0.2.4".to_string(),
        body: "notes".to_string(),
        html_url: "https://example.net/releases/v0.2.4-build5".to_string(),
        published_at: "2024-05-01T00:00:00Z".to_string(),
        assets: vec![
            GitHubAsset {
                name: "client-setup.exe".to_string(),
                browser_download_url: "https://example.net/dl/client-setup.exe".to_string(),
            },
            GitHubAsset {
                name: "client.AppImage".to_string(),
                browser_download_url: "https://example.net/dl/client.AppImage".to_string(),
            },
        ],
        prerelease: false,
    }
}

#[test]
fn test_evaluate_release_builds_update_info() {
    let release = sample_release();
    let info = evaluate_release("0.2.3", "v0.2.3", &release, ".AppImage")
        .expect("newer release yields an update");
    assert_eq!(info.version, "0.2.4");
    assert_eq!(info.tag, "v0.2.4-build5");
    assert_eq!(info.name, "Release 0.2.4");
    assert_eq!(info.body, "notes");
    assert_eq!(info.download_url, "https://example.net/dl/client.AppImage");
    assert_eq!(
        info.release_url,
        "https://example.net/releases/v0.2.4-build5"
    );
    assert_eq!(info.published_at, "2024-05-01T00:00:00Z");
}

#[test]
fn test_evaluate_release_falls_back_to_release_page() {
    let release = sample_release();
    let info = evaluate_release("0.2.3", "v0.2.3", &release, "-debug.apk")
        .expect("newer release yields an update");
    assert_eq!(
        info.download_url,
        "https://example.net/releases/v0.2.4-build5"
    );
}

#[test]
fn test_evaluate_release_empty_pattern_takes_first_asset() {
    let release = sample_release();
    let info = evaluate_release("0.2.3", "v0.2.3", &release, "")
        .expect("newer release yields an update");
    assert_eq!(info.download_url, "https://example.net/dl/client-setup.exe");
}

#[test]
fn test_evaluate_release_not_newer_yields_nothing() {
    let release = sample_release();
    assert!(evaluate_release("0.2.4", "v0.2.4-build5", &release, ".AppImage").is_none());
    assert!(evaluate_release("0.2.5", "v0.2.5", &release, ".AppImage").is_none());
}
