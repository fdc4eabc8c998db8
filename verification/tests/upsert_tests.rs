//! Locating blocks in configuration text and merging a new block in.

use kanshi_generate::{upsert_profile_in_config, GenerateError};

#[test]
fn upsert_replaces_single_matching_block() {
    let current = "# header\nprofile desk {\n  output \"old\" disable\n}\n\nprofile other {\n  output \"x\" disable\n}\n";
    let replacement = "profile desk {\n  output \"new\" disable\n}\n";

    let merged = upsert_profile_in_config(current, "desk", replacement).unwrap();

    assert!(merged.contains("output \"new\" disable"));
    assert!(merged.contains("profile other"));
    assert!(!merged.contains("output \"old\" disable"));
}

#[test]
fn upsert_appends_when_profile_is_missing() {
    let current = "profile alpha {\n  output \"x\" disable\n}";
    let inserted = "profile beta {\n  output \"y\" disable\n}\n";

    let merged = upsert_profile_in_config(current, "beta", inserted).unwrap();

    assert!(merged.starts_with("profile alpha"));
    assert!(merged.contains("\n\nprofile beta"));
    assert!(merged.ends_with('\n'));
}

#[test]
fn upsert_fails_on_duplicate_matching_profile_names() {
    let current = "profile desk {\n}\nprofile desk {\n}\n";
    let inserted = "profile desk {\n  output \"x\" disable\n}\n";

    let err = upsert_profile_in_config(current, "desk", inserted).unwrap_err();
    assert!(matches!(err, GenerateError::DuplicateProfileName { .. }));
}

#[test]
fn upsert_does_not_match_partial_profile_names() {
    let current = "profile Home-21-9 {\n}\n";
    let inserted = "profile Home {\n}\n";

    let merged = upsert_profile_in_config(current, "Home", inserted).unwrap();
    assert!(merged.contains("profile Home-21-9"));
    assert!(merged.contains("profile Home {"));
}

#[test]
fn parser_ignores_profile_keyword_in_comments_and_strings() {
    let current =
        "# profile fake { }\nprofile desk {\n  output \"literal profile ignored\" disable\n}\n";
    let inserted = "profile desk {\n  output \"new\" disable\n}\n";

    let merged = upsert_profile_in_config(current, "desk", inserted).unwrap();
    assert!(merged.starts_with("# profile fake { }\n"));
    assert!(merged.contains("output \"new\" disable"));
}

#[test]
fn parser_reports_unclosed_profile_block() {
    let current = "profile broken {\n  output \"x\" disable\n";
    let inserted = "profile broken {\n}\n";

    let err = upsert_profile_in_config(current, "broken", inserted).unwrap_err();
    assert!(matches!(err, GenerateError::ConfigParse { .. }));
}

#[test]
fn appended_content_ensures_single_newline_termination() {
    let current = "profile alpha {\n}\n";
    let inserted = "profile beta {\n}";
    let merged = upsert_profile_in_config(current, "beta", inserted).unwrap();
    assert!(merged.ends_with('\n'));
}
