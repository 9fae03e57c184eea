use cargo_work::error::{NotFoundKind, WorkError};
use cargo_work::registry::{resolve_crate, CrateMetadata, VersionInfo};
use cargo_work::version::{is_exact_version, normalize_range, parse_dep_spec, parse_version};

fn vi(num: &str, yanked: bool, features: &[&str]) -> VersionInfo {
    VersionInfo {
        num: num.to_string(),
        yanked,
        features: features.iter().map(|f| f.to_string()).collect(),
    }
}

fn meta(known: bool, versions: Vec<VersionInfo>) -> CrateMetadata {
    CrateMetadata { known, versions }
}

fn feats(fs: &[&str]) -> Vec<String> {
    fs.iter().map(|f| f.to_string()).collect()
}

#[test]
fn exact_version_is_three_all_digit_parts() {
    assert!(is_exact_version("1.2.3"));
    assert!(is_exact_version("0.0.0"));
    assert!(is_exact_version("10.200.3000"));
    assert!(!is_exact_version("1.2"));
    assert!(!is_exact_version("1.2.3.4"));
    assert!(!is_exact_version("a.b.c"));
    assert!(!is_exact_version("1.2.x"));
    assert!(!is_exact_version("^1.2.3"));
    assert!(!is_exact_version(""));
}

#[test]
fn normalize_keeps_operator_ranges() {
    assert_eq!(normalize_range("^1.2").unwrap(), "^1.2");
    assert_eq!(normalize_range("~0.3").unwrap(), "~0.3");
    assert_eq!(normalize_range(">=1, <2").unwrap(), ">=1, <2");
    assert_eq!(normalize_range("<9").unwrap(), "<9");
}

#[test]
fn normalize_prefixes_numeric_literals_with_caret() {
    assert_eq!(normalize_range("1.2").unwrap(), "^1.2");
    assert_eq!(normalize_range("1").unwrap(), "^1");
    assert_eq!(normalize_range("0.1").unwrap(), "^0.1");
}

#[test]
fn normalize_rejects_other_shapes() {
    assert!(matches!(
        normalize_range("abc"),
        Err(WorkError::InvalidSpec { text }) if text == "abc"
    ));
    assert!(matches!(normalize_range("1.2-beta"), Err(WorkError::InvalidSpec { .. })));
}

#[test]
fn parse_dep_spec_splits_at_first_at_sign() {
    assert_eq!(parse_dep_spec("foo"), ("foo".to_string(), None));
    assert_eq!(parse_dep_spec("foo@1.2"), ("foo".to_string(), Some("1.2".to_string())));
    assert_eq!(parse_dep_spec("foo@1@x"), ("foo".to_string(), Some("1@x".to_string())));
}

#[test]
fn parse_version_reads_plain_triples() {
    let v = parse_version("1.2.3").unwrap();
    assert_eq!((v.major, v.minor, v.patch), (1, 2, 3));
    assert!(parse_version("1.2").is_none());
    assert!(parse_version("1.2.3-beta").is_none());
    assert!(parse_version("1..3").is_none());
}

#[test]
fn resolution_picks_highest_satisfying_not_first_match() {
    let m = meta(
        true,
        vec![vi("1.0.0", false, &[]), vi("1.1.0", false, &[]), vi("1.2.0", false, &[])],
    );
    let rc = resolve_crate("demo", Some("^1.1"), &feats(&[]), &m).unwrap();
    assert_eq!(rc.version, "1.2.0");
    assert_eq!(rc.name, "demo");
}

#[test]
fn resolution_without_spec_takes_latest_non_yanked() {
    let m = meta(
        true,
        vec![vi("1.0.0", false, &[]), vi("2.0.0", true, &[]), vi("1.5.0", false, &[])],
    );
    let rc = resolve_crate("demo", None, &feats(&[]), &m).unwrap();
    assert_eq!(rc.version, "1.5.0");
}

#[test]
fn resolution_exact_match_requires_listed_version() {
    let m = meta(true, vec![vi("1.0.0", false, &[]), vi("1.1.0", false, &[])]);
    let rc = resolve_crate("demo", Some("=1.0.0"), &feats(&[]), &m).unwrap();
    assert_eq!(rc.version, "1.0.0");
    let rc2 = resolve_crate("demo", Some("1.1.0"), &feats(&[]), &m).unwrap();
    assert_eq!(rc2.version, "1.1.0");
    assert!(matches!(
        resolve_crate("demo", Some("=9.9.9"), &feats(&[]), &m),
        Err(WorkError::NotFound { kind: NotFoundKind::Version, .. })
    ));
}

#[test]
fn resolution_rejects_unknown_crate_and_empty_versions() {
    assert!(matches!(
        resolve_crate("nope", None, &feats(&[]), &meta(false, vec![])),
        Err(WorkError::NotFound { kind: NotFoundKind::UnknownCrate, .. })
    ));
    assert!(matches!(
        resolve_crate("demo", None, &feats(&[]), &meta(true, vec![vi("2.0.0", true, &[])])),
        Err(WorkError::NotFound { kind: NotFoundKind::NoVersions, .. })
    ));
}

#[test]
fn resolution_rejects_bad_specs_and_unsatisfied_ranges() {
    let m = meta(true, vec![vi("1.0.0", false, &[])]);
    assert!(matches!(
        resolve_crate("demo", Some("abc"), &feats(&[]), &m),
        Err(WorkError::InvalidSpec { .. })
    ));
    assert!(matches!(
        resolve_crate("demo", Some("=1.2"), &feats(&[]), &m),
        Err(WorkError::InvalidSpec { text }) if text == "1.2"
    ));
    assert!(matches!(
        resolve_crate("demo", Some("^9"), &feats(&[]), &m),
        Err(WorkError::NotFound { kind: NotFoundKind::NoMatch, .. })
    ));
}

#[test]
fn resolution_validates_features_against_chosen_version() {
    let m = meta(
        true,
        vec![vi("1.0.0", false, &["serde", "std"]), vi("1.1.0", false, &["std"])],
    );
    let rc = resolve_crate("demo", Some("=1.0.0"), &feats(&["serde", "std"]), &m).unwrap();
    assert_eq!(rc.features, feats(&["serde", "std"]));
    // the chosen (highest) version 1.1.0 lacks `serde`
    assert!(matches!(
        resolve_crate("demo", None, &feats(&["serde"]), &m),
        Err(WorkError::NotFound { kind: NotFoundKind::Feature, subject, .. }) if subject == "serde"
    ));
}

#[test]
fn yanked_highest_version_is_skipped() {
    let m = meta(true, vec![vi("1.0.0", false, &[]), vi("1.9.0", true, &[])]);
    let rc = resolve_crate("demo", Some("^1"), &feats(&[]), &m).unwrap();
    assert_eq!(rc.version, "1.0.0");
}

#[test]
fn degenerate_dotted_spec_is_exact_shaped_but_invalid() {
    // two dots and only digits around them, yet not a parseable triple
    assert!(is_exact_version("1..2"));
    let m = meta(true, vec![vi("1.0.0", false, &[])]);
    assert!(matches!(
        resolve_crate("demo", Some("1..2"), &feats(&[]), &m),
        Err(WorkError::InvalidSpec { .. })
    ));
}
