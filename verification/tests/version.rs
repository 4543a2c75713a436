use draox_plugins::version::{SemVer, VersionResolver};

#[test]
fn test_exact_match() {
    assert!(VersionResolver::matches("1.2.3", "=1.2.3"));
    assert!(!VersionResolver::matches("1.2.4", "=1.2.3"));
}

#[test]
fn test_gte_lte_gt_lt() {
    assert!(VersionResolver::matches("2.0.0", ">=1.0.0"));
    assert!(VersionResolver::matches("1.0.0", ">=1.0.0"));
    assert!(!VersionResolver::matches("0.9.9", ">=1.0.0"));

    assert!(VersionResolver::matches("0.9.0", "<=1.0.0"));
    assert!(!VersionResolver::matches("1.0.1", "<=1.0.0"));

    assert!(VersionResolver::matches("1.0.1", ">1.0.0"));
    assert!(!VersionResolver::matches("1.0.0", ">1.0.0"));

    assert!(VersionResolver::matches("0.9.9", "<1.0.0"));
    assert!(!VersionResolver::matches("1.0.0", "<1.0.0"));
}

#[test]
fn test_caret_compatible() {
    assert!(VersionResolver::matches("1.5.0", "^1.2.0"));
    assert!(VersionResolver::matches("1.2.0", "^1.2.0"));
    assert!(!VersionResolver::matches("2.0.0", "^1.2.0"));
    assert!(!VersionResolver::matches("1.1.9", "^1.2.0"));
}

#[test]
fn test_tilde_patch_compatible() {
    assert!(VersionResolver::matches("1.2.5", "~1.2.3"));
    assert!(VersionResolver::matches("1.2.3", "~1.2.3"));
    assert!(!VersionResolver::matches("1.3.0", "~1.2.3"));
    assert!(!VersionResolver::matches("1.2.2", "~1.2.3"));
}

#[test]
fn test_wildcard_any() {
    assert!(VersionResolver::matches("99.99.99", "*"));
    assert!(VersionResolver::matches("0.0.1", "*"));
}

#[test]
fn test_bare_version_treated_as_gte() {
    assert!(VersionResolver::matches("1.5.0", "1.2.0"));
    assert!(!VersionResolver::matches("1.0.0", "1.2.0"));
}

#[test]
fn test_resolve_best() {
    let available = &["1.0.0", "1.2.0", "1.3.5", "2.0.0"];
    assert_eq!(VersionResolver::resolve_best(available, "^1.0.0"), Some("1.3.5".to_string()));
    assert_eq!(VersionResolver::resolve_best(available, ">=2.0.0"), Some("2.0.0".to_string()));
    assert_eq!(VersionResolver::resolve_best(available, ">=3.0.0"), None);
}

#[test]
fn is_compatible_is_matches() {
    assert!(VersionResolver::is_compatible("1.4.0", "^1.0.0"));
    assert!(!VersionResolver::is_compatible("2.4.0", "^1.0.0"));
    assert!(VersionResolver::is_compatible("0.1.0", "*"));
}

#[test]
fn semver_parse_components() {
    let v = SemVer::parse("10.20.30").unwrap();
    assert_eq!((v.major, v.minor, v.patch), (10, 20, 30));
    let short = SemVer::parse("v1.2").unwrap();
    assert_eq!((short.major, short.minor, short.patch), (1, 2, 0));
    assert!(SemVer::parse("a.b.c").is_none());
}

#[test]
fn resolve_best_skips_unparsable_versions() {
    let available = &["x.y.z", "1.0.0", "1.1.0"];
    assert_eq!(VersionResolver::resolve_best(available, "^1.0.0"), Some("1.1.0".to_string()));
}
