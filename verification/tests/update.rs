use geodata_editor::update::{
    check_download, hex_digit, is_update, offer, parse_release_version, parse_sha256,
    select_update, Release, ReleaseAsset, ReleaseVersion, RELEASE_ASSET_NAME,
};

fn version(text: &str) -> ReleaseVersion {
    ReleaseVersion::parse(text).unwrap()
}

fn release(tag: &str, assets: &[(&str, u64)]) -> Release {
    Release {
        tag_name: tag.into(),
        assets: assets
            .iter()
            .map(|(name, size)| ReleaseAsset {
                name: (*name).into(),
                browser_download_url: format!("https://example.invalid/{name}"),
                size: *size,
                digest: Some(format!("sha256:{}", "00".repeat(32))),
            })
            .collect(),
    }
}

#[test]
fn selects_only_newer_release_with_editor_asset() {
    let current = version("1.2.3");
    let update = select_update(&release("v1.2.4", &[(RELEASE_ASSET_NAME, 1024)]), &current).unwrap();
    assert_eq!(update.version, version("1.2.4"));
    assert_eq!(update.size, 1024);
}

#[test]
fn accepts_github_tags_without_patch_component() {
    let current = version("0.1.0");
    let update = select_update(&release("1.1", &[(RELEASE_ASSET_NAME, 1)]), &current).unwrap();
    assert_eq!(update.version, version("1.1.0"));
    assert_eq!(
        parse_release_version("v2.0-rc.1").unwrap(),
        version("2.0.0-rc.1")
    );
}

#[test]
fn ignores_equal_older_or_incomplete_releases() {
    let current = version("1.2.3");
    assert!(select_update(&release("v1.2.3", &[(RELEASE_ASSET_NAME, 1)]), &current).is_none());
    assert!(select_update(&release("v1.2.2", &[(RELEASE_ASSET_NAME, 1)]), &current).is_none());
    assert!(select_update(&release("v1.2.4", &[("source.zip", 1)]), &current).is_none());
    assert!(select_update(&release("v1.2.4", &[(RELEASE_ASSET_NAME, 0)]), &current).is_none());
}

#[test]
fn requires_a_valid_sha256_release_digest() {
    let current = version("1.2.3");
    let mut release = release("v1.2.4", &[(RELEASE_ASSET_NAME, 1)]);
    release.assets[0].digest = None;
    assert!(select_update(&release, &current).is_none());
    assert!(parse_sha256("sha256:not-hex").is_none());
    assert_eq!(
        parse_sha256(&format!("sha256:{}", "ab".repeat(32))).unwrap(),
        [0xab; 32]
    );
}

#[test]
fn an_installed_update_is_not_offered_again() {
    let release = release("v2.0.0-rc.1+build.7", &[("geodataeditor.EXE", 5)]);
    let update = select_update(&release, &version("1.9.9")).unwrap();
    assert!(select_update(&release, &update.version).is_none());
}

#[test]
fn pre_releases_come_before_their_release() {
    let assets = [(RELEASE_ASSET_NAME, 1)];
    assert!(select_update(&release("1.0.0", &assets), &version("1.0.0-rc.2")).is_some());
    assert!(select_update(&release("1.0.0-rc.11", &assets), &version("1.0.0-rc.2")).is_some());
    assert!(select_update(&release("1.0.0-rc.1", &assets), &version("1.0.0")).is_none());
}

#[test]
fn versions_keep_their_parts() {
    let parsed = version("1.22.333-alpha.1+build.5");
    assert_eq!((parsed.major, parsed.minor, parsed.patch), (1, 22, 333));
    assert_eq!(parsed.pre, "alpha.1");
    assert_eq!(parsed.build, "build.5");
    assert_eq!(parsed.text(), "1.22.333-alpha.1+build.5");
    assert_eq!(version("1.0.0").text(), "1.0.0");
    assert_eq!(ReleaseVersion::parse("1.0"), None);
}

#[test]
fn tags_that_cannot_be_completed_have_no_version() {
    for tag in ["", "v", "1..2", ".1", "1.", "1.2.3.4", "x.y", "1.2-"] {
        assert_eq!(parse_release_version(tag), None, "{tag}");
    }
    assert_eq!(parse_release_version(" v3 ").unwrap(), version("3.0.0"));
    assert_eq!(parse_release_version("vv1.2+b").unwrap(), version("1.2.0+b"));
}

#[test]
fn hexadecimal_digits_have_values() {
    assert_eq!(hex_digit('7'), Some(7));
    assert_eq!(hex_digit('b'), Some(11));
    assert_eq!(hex_digit('F'), Some(15));
    assert_eq!(hex_digit('g'), None);
    assert!(parse_sha256(&"ab".repeat(32)).is_none());
    assert!(parse_sha256(&format!("sha256:{}", "ab".repeat(31))).is_none());
}

#[test]
fn a_download_has_the_announced_size_and_digest() {
    let mut release = release("1.0.0", &[(RELEASE_ASSET_NAME, 11)]);
    release.assets[0].digest = Some(
        "sha256:b94d27b9934d3e08a52e52d7da7dabfac484efe37a5380ee9088f7ace2efcde9".into(),
    );
    let update = offer(&release, version("1.0.0")).unwrap();
    assert!(check_download(b"hello world", &update));
    assert!(!check_download(b"hello_world", &update));
    assert!(!check_download(b"hello world!", &update));
    assert!(is_update(11, &update.sha256, &update));
    assert!(!is_update(12, &update.sha256, &update));
    assert!(!is_update(11, &[0; 32], &update));
}
