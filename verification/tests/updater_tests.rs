use igra_cli::updater::{
    get_current_version, version_info_from_release, GitHubAsset, GitHubRelease, UpdateError,
    CURRENT_VERSION,
};

#[test]
fn test_current_version_parsing() {
    let version = semver::Version::parse(CURRENT_VERSION);
    assert!(version.is_ok(), "Current version should be valid semver");
}

#[test]
fn test_get_current_version() {
    let info = get_current_version();
    assert_eq!(info.current_version, CURRENT_VERSION);
    assert!(!info.update_available);
}

#[test]
fn current_version_links_to_releases() {
    let info = get_current_version();
    assert_eq!(info.current_version, "0.12.0");
    assert_eq!(
        info.release_url,
        Some("https://github.com/Zorglub4242/Igra-mgt/releases".to_string())
    );
    assert_eq!(info.latest_version, None);
}

fn release(tag: &str) -> GitHubRelease {
    GitHubRelease {
        tag_name: tag.to_string(),
        body: Some("notes".to_string()),
        html_url: "https://example.com/r".to_string(),
        published_at: "2025-01-01T00:00:00Z".to_string(),
        assets: vec![
            GitHubAsset {
                name: "igra-cli-macos".to_string(),
                browser_download_url: "https://example.com/mac".to_string(),
            },
            GitHubAsset {
                name: "igra-cli-linux-x86_64".to_string(),
                browser_download_url: "https://example.com/linux".to_string(),
            },
        ],
    }
}

#[test]
fn newer_release_offers_update() {
    let info = version_info_from_release(&release("v0.13.1")).unwrap();
    assert!(info.update_available);
    assert_eq!(info.latest_version, Some("0.13.1".to_string()));
    assert_eq!(info.download_url, Some("https://example.com/linux".to_string()));
    assert_eq!(info.release_notes, Some("notes".to_string()));

    let info = version_info_from_release(&release("0.12.0")).unwrap();
    assert!(!info.update_available);
    let info = version_info_from_release(&release("v0.12.0-rc.1")).unwrap();
    assert!(!info.update_available);

    assert_eq!(
        version_info_from_release(&release("latest")).unwrap_err(),
        UpdateError::InvalidLatestVersion
    );
}
