use hookplayer::updater::{plan_update, platform_os, release_version, UpdatePlan};
use hookplayer::error::HookError;
use hookplayer::version::{is_newer, parse_version};

#[test]
fn newer_patch() {
    assert!(is_newer("0.1.1", "0.1.0"));
}

#[test]
fn newer_minor() {
    assert!(is_newer("0.2.0", "0.1.9"));
}

#[test]
fn newer_major() {
    assert!(is_newer("1.0.0", "0.9.9"));
}

#[test]
fn not_newer_equal() {
    assert!(!is_newer("0.1.0", "0.1.0"));
}

#[test]
fn not_newer_older() {
    assert!(!is_newer("0.1.0", "0.2.0"));
}

#[test]
fn handles_double_digit_minor() {
    assert!(is_newer("0.10.0", "0.9.0"));
}

#[test]
fn longer_sequence_with_equal_prefix_is_newer() {
    assert!(is_newer("1.0.0", "1.0"));
    assert!(!is_newer("1.0", "1.0.0"));
}

#[test]
fn parse_version_reads_numeric_components() {
    assert_eq!(parse_version("1.2.0"), vec![1, 2, 0]);
    assert_eq!(parse_version("10.0.7"), vec![10, 0, 7]);
    assert_eq!(parse_version("+3.4"), vec![3, 4]);
}

#[test]
fn parse_version_skips_non_numeric_components() {
    assert_eq!(parse_version("1.x.3"), vec![1, 3]);
    assert_eq!(parse_version("1.2.0-beta"), vec![1, 2]);
    assert_eq!(parse_version(""), Vec::<u64>::new());
    assert_eq!(parse_version("1..2"), vec![1, 2]);
}

#[test]
fn parse_version_skips_components_that_overflow() {
    assert_eq!(parse_version("18446744073709551615.1"), vec![u64::MAX, 1]);
    assert_eq!(parse_version("18446744073709551616.1"), vec![1]);
}

#[test]
fn release_version_strips_one_prefix_character() {
    assert_eq!(release_version("v1.2.0"), "1.2.0");
    assert_eq!(release_version("1.2.0"), "1.2.0");
    assert_eq!(release_version("vv1.2.0"), "v1.2.0");
    assert_eq!(release_version(""), "");
}

#[test]
fn platform_os_accepts_macos_and_linux() {
    assert_eq!(platform_os("macos").unwrap(), "macos");
    assert_eq!(platform_os("linux").unwrap(), "linux");
}

#[test]
fn platform_os_rejects_other_systems() {
    match platform_os("windows") {
        Err(HookError::UnsupportedPlatform(os)) => assert_eq!(os, "windows"),
        _ => panic!("expected an unsupported platform error"),
    }
}

#[test]
fn plan_update_up_to_date_needs_no_download() {
    assert!(matches!(plan_update("0.2.0", "v0.2.0", "linux", "x86_64"), Ok(UpdatePlan::UpToDate)));
    assert!(matches!(plan_update("0.2.0", "v0.1.9", "windows", "x86_64"), Ok(UpdatePlan::UpToDate)));
}

#[test]
fn plan_update_unsupported_os_fails_before_download() {
    match plan_update("0.1.0", "v0.2.0", "windows", "x86_64") {
        Err(HookError::UnsupportedPlatform(os)) => assert_eq!(os, "windows"),
        _ => panic!("expected an unsupported platform error"),
    }
}

#[test]
fn plan_update_names_asset_and_url() {
    match plan_update("0.1.0", "v0.2.0", "linux", "aarch64") {
        Ok(UpdatePlan::Download { latest, asset, url }) => {
            assert_eq!(latest, "0.2.0");
            assert_eq!(asset, "hookplayer-linux-aarch64");
            assert_eq!(
                url,
                "https://github.com/nickagliano/hookplayer/releases/download/v0.2.0/hookplayer-linux-aarch64"
            );
        }
        _ => panic!("expected a download"),
    }
}
