use jw::selfupdate::{
    asset_names, asset_url, current_target, latest_release_url, parse_release_version,
    parse_sha256_sidecar, release_tag, should_update, UpdateOutcome, Version, REPO,
};
use jw::selfupdate::{
    checksum_verdict, decide_update, eq_ignore_ascii_case, hex_lower, latest_from_body, latest_from_field,
    updated_outcome, verify_sha256, LatestError, UpdateDecision,
};

fn v(s: &str) -> Version {
    Version::parse(s).unwrap()
}

#[test]
fn release_tag_format() {
    assert_eq!(release_tag("0.2.0"), "jw-v0.2.0");
}

#[test]
fn asset_names_format() {
    let (a, s) = asset_names("0.2.0", "aarch64-apple-darwin");
    assert_eq!(a, "jj-workspace_0.2.0_aarch64-apple-darwin.tar.gz");
    assert_eq!(s, "jj-workspace_0.2.0_aarch64-apple-darwin.tar.gz.sha256");
}

#[test]
fn asset_url_format() {
    assert_eq!(
        asset_url("bfirestone/jj-workspace", "jw-v0.2.0", "jj-workspace_0.2.0_x86_64-apple-darwin.tar.gz"),
        "https://github.com/bfirestone/jj-workspace/releases/download/jw-v0.2.0/jj-workspace_0.2.0_x86_64-apple-darwin.tar.gz"
    );
}

#[test]
fn latest_release_url_format() {
    assert_eq!(latest_release_url(REPO), "https://api.github.com/repos/bfirestone/jj-workspace/releases/latest");
}

#[test]
fn should_update_semver() {
    assert!(should_update(&v("0.2.0"), &v("0.3.0"), false));
    assert!(!should_update(&v("0.2.0"), &v("0.2.0"), false));
    assert!(!should_update(&v("0.3.0"), &v("0.2.0"), false));
    assert!(should_update(&v("0.2.0"), &v("0.2.0"), true)); // force
}

#[test]
fn prerelease_orders_below_release() {
    assert!(should_update(&v("1.0.0-rc.1"), &v("1.0.0"), false));
    assert!(!should_update(&v("1.0.0"), &v("1.0.0-rc.1"), false));
    assert!(should_update(&v("0.9.9"), &v("0.10.0"), false));
}

#[test]
fn parse_sidecar_takes_first_token() {
    assert_eq!(parse_sha256_sidecar("ABC123  jj-workspace_0.2.0_x.tar.gz\n").as_deref(), Some("abc123"));
    assert_eq!(parse_sha256_sidecar(""), None);
    assert_eq!(parse_sha256_sidecar(" \n\t "), None);
    assert_eq!(parse_sha256_sidecar("\n  DeadBeef\tname").as_deref(), Some("deadbeef"));
}

#[test]
fn parse_version_strips_prefixes() {
    assert_eq!(parse_release_version("jw-v0.2.0"), Some(v("0.2.0")));
    assert_eq!(parse_release_version("v1.0.0"), Some(v("1.0.0")));
    assert_eq!(parse_release_version("0.2.0"), Some(v("0.2.0")));
    assert!(parse_release_version("garbage").is_none());
    assert_eq!(v("1.2.3-beta+7").as_str(), "1.2.3-beta+7");
    assert!(Version::parse("01.0.0").is_none());
}

#[test]
fn known_targets_map_to_triples() {
    assert_eq!(current_target("linux", "x86_64"), Some("x86_64-unknown-linux-gnu"));
    assert_eq!(current_target("linux", "aarch64"), Some("aarch64-unknown-linux-gnu"));
    assert_eq!(current_target("macos", "x86_64"), Some("x86_64-apple-darwin"));
    assert_eq!(current_target("macos", "aarch64"), Some("aarch64-apple-darwin"));
    assert_eq!(current_target("windows", "x86_64"), None);
}

#[test]
fn outcome_message_accessor() {
    assert_eq!(UpdateOutcome::Updated("x".into()).message(), "x");
    assert_eq!(UpdateOutcome::UpToDate("y".into()).message(), "y");
    assert_eq!(UpdateOutcome::UpdateAvailable("z".into()).message(), "z");
}

#[test]
fn update_decisions() {
    let old = v("0.2.0");
    let new = v("0.3.0");
    assert_eq!(
        decide_update(&old, &new, true, false),
        UpdateDecision::Report(UpdateOutcome::UpdateAvailable("0.3.0 available (have 0.2.0)".into()))
    );
    assert_eq!(
        decide_update(&new, &new, true, true),
        UpdateDecision::Report(UpdateOutcome::UpToDate("up to date (0.3.0)".into()))
    );
    assert_eq!(decide_update(&old, &new, false, false), UpdateDecision::Install);
    assert_eq!(decide_update(&new, &new, false, true), UpdateDecision::Install);
    assert_eq!(
        decide_update(&new, &old, false, false),
        UpdateDecision::Report(UpdateOutcome::UpToDate("jw 0.3.0 is already up to date".into()))
    );
    assert_eq!(updated_outcome(&old, &new).message(), "Updated jw 0.2.0 → 0.3.0");
}

#[test]
fn latest_version_from_reply() {
    assert_eq!(latest_from_body("{\"tag_name\": \"jw-v1.2.3\"}").unwrap(), v("1.2.3"));
    assert_eq!(latest_from_body("not json").unwrap_err(), LatestError::BadJson);
    assert_eq!(latest_from_body("{\"name\": \"x\"}").unwrap_err(), LatestError::NoTagName);
    assert_eq!(latest_from_body("{\"tag_name\": 3}").unwrap_err(), LatestError::NoTagName);
    assert_eq!(latest_from_body("{\"tag_name\": \"nightly\"}").unwrap_err(), LatestError::BadTag("nightly".into()));
    assert_eq!(latest_from_field(Some(Some("v0.4.0"))).unwrap(), v("0.4.0"));
    assert_eq!(latest_from_field(None).unwrap_err().message(), "parsing releases/latest JSON");
    assert_eq!(LatestError::BadTag("x".into()).message(), "unparseable release tag 'x'");
}

#[test]
fn hex_and_case_folding() {
    assert_eq!(hex_lower(&[0x00, 0x0f, 0xab, 0xff]), "000fabff");
    assert!(eq_ignore_ascii_case("ABC123", "abc123"));
    assert!(!eq_ignore_ascii_case("abc", "abd"));
    assert!(!eq_ignore_ascii_case("abc", "abcd"));
    assert!(checksum_verdict(&[0xab], "AB").is_ok());
    assert_eq!(checksum_verdict(&[0xab], "cd").unwrap_err(), "checksum mismatch: expected cd, got ab");
}

#[test]
fn sha256_checks_the_archive() {
    let abc = "ba7816bf8f01cfea414140de5dae2223b00361a396177a9cb410ff61f20015ad";
    assert!(verify_sha256(b"abc", abc).is_ok());
    assert!(verify_sha256(b"abc", &abc.to_uppercase()).is_ok());
    let err = verify_sha256(b"", abc).unwrap_err();
    assert_eq!(
        err,
        format!("checksum mismatch: expected {abc}, got e3b0c44298fc1c149afbf4c8996fb92427ae41e4649b934ca495991b7852b855")
    );
}
