use eso_addon_manager::version::{is_update_available, normalize_version, Version};

#[test]
fn test_parse_simple_version() {
    let v = Version::parse("1.2.3");
    assert_eq!(v.components, vec![1, 2, 3]);
    assert_eq!(v.prerelease, None);
    assert!(!v.is_branch);
}

#[test]
fn test_parse_prefixed_version() {
    let v = Version::parse("v2.0.1");
    assert_eq!(v.components, vec![2, 0, 1]);

    let v = Version::parse("r32");
    assert_eq!(v.components, vec![32]);
}

#[test]
fn test_parse_prerelease() {
    let v = Version::parse("1.0.0-beta");
    assert_eq!(v.components, vec![1, 0, 0]);
    assert_eq!(v.prerelease, Some("beta".to_string()));
}

#[test]
fn test_parse_branch_version() {
    let v = Version::parse("main-latest");
    assert!(v.is_branch);
    assert!(v.components.is_empty());
}

#[test]
fn test_version_comparison() {
    assert!(is_update_available("1.0.0", "1.0.1"));
    assert!(is_update_available("1.0.0", "1.1.0"));
    assert!(is_update_available("1.0.0", "2.0.0"));
    assert!(!is_update_available("1.0.1", "1.0.0"));
    assert!(!is_update_available("1.0.0", "1.0.0"));
}

#[test]
fn test_version_comparison_different_lengths() {
    assert!(is_update_available("1.0", "1.0.1"));
    assert!(is_update_available("1", "1.0.1"));
    assert!(!is_update_available("1.0.1", "1.0"));
}

#[test]
fn test_version_comparison_prefixes() {
    assert!(is_update_available("v1.0.0", "v1.0.1"));
    assert!(is_update_available("r31", "r32"));
    assert!(is_update_available("v1.0.0", "1.0.1"));
}

#[test]
fn test_prerelease_comparison() {
    assert!(is_update_available("1.0.0-alpha", "1.0.0-beta"));
    assert!(is_update_available("1.0.0-beta", "1.0.0"));
    assert!(!is_update_available("1.0.0", "1.0.0-beta"));
}

#[test]
fn test_branch_version_always_outdated() {
    assert!(is_update_available("main-latest", "1.0.0"));
    assert!(is_update_available("master-latest", "0.0.1"));
}

#[test]
fn test_normalize_version() {
    assert_eq!(normalize_version("v1.2.3"), "1.2.3");
    assert_eq!(normalize_version("1.2.3-beta"), "1.2.3-beta");
    assert_eq!(normalize_version("main-latest"), "main-latest");
}

#[test]
fn test_compare_version_with_itself() {
    let v = Version::parse("1.4.7-rc1");
    assert_eq!(v.compare(&v), std::cmp::Ordering::Equal);
    let b = Version::parse("main-latest");
    assert_eq!(b.compare(&b), std::cmp::Ordering::Equal);
}

#[test]
fn test_normalize_prefix_invariance() {
    assert_eq!(normalize_version("v1.2.3"), normalize_version("1.2.3"));
    assert_eq!(normalize_version("R32"), normalize_version("32"));
}

#[test]
fn test_update_rules() {
    assert!(is_update_available("1.0", "1.0.1"));
    assert!(!is_update_available("1.0.1", "1.0"));
    assert!(is_update_available("1.0.0-beta", "1.0.0"));
    assert!(!is_update_available("1.0.0", "1.0.0-beta"));
}

#[test]
fn test_parse_build_metadata() {
    let v = Version::parse("1.2.3+build123");
    assert_eq!(v.components, vec![1, 2, 3]);
    assert_eq!(v.prerelease, None);
}

#[test]
fn test_parse_drops_non_numeric_components() {
    let v = Version::parse("2024.01.x");
    assert_eq!(v.components, vec![2024, 1]);
}
