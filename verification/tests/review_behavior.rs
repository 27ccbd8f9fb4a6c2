//! Review-pipeline behavior: pre-selection, the editable template, reading
//! the edited text back, and replaying entries.

use changelog::commands::Changelog;
use changelog::errors::ChangelogError;
use changelog::review::{apply_entries, build_review_template, parse_review_lines, review_defaults};

#[test]
fn test_review_defaults_preselect_feat_and_fix() {
    let msgs = vec![
        "feat: add parser".to_string(),
        "fix: crash on empty file".to_string(),
        "docs: update readme".to_string(),
        "just a plain message".to_string(),
    ];
    let defaults = review_defaults(&msgs);
    assert_eq!(defaults, vec![true, true, false, false]);
}

#[test]
fn test_build_review_template() {
    let commits = vec![
        ("1234567".to_string(), "feat: add new feature".to_string()),
        ("89abcde".to_string(), "fix: repair the thing".to_string()),
        ("aaaa111".to_string(), "docs: clarify usage".to_string()),
        ("bbbb222".to_string(), "plain message".to_string()),
    ];
    let template = build_review_template(&commits);
    assert!(template.starts_with(
        "added 1234567 add new feature\nfixed 89abcde repair the thing\nchanged aaaa111 clarify usage\nchanged bbbb222 plain message\n\n\n# Review commits"
    ));
    assert!(template.contains("# Lines starting with '#' will be ignored"));
}

#[test]
fn test_parse_review_lines() {
    let edited = "added 1234567 New feature\n# a comment line\n\na 89abcde Aliased entry\nbadline\nf cccc333 Fixed thing here\n";
    let entries = parse_review_lines(edited);
    assert_eq!(
        entries,
        vec![
            ("added".to_string(), "New feature".to_string()),
            ("added".to_string(), "Aliased entry".to_string()),
            ("fixed".to_string(), "Fixed thing here".to_string()),
        ]
    );
}

#[test]
fn test_apply_entries_replays_in_order() {
    let content = "# Changelog\n\n## Unreleased\n\n### Added\n\n- one\n\n## 1.0.0 - 2024-01-01\n\n### Added\n\n- base\n";
    let changelog = Changelog::new();
    let entries = vec![
        ("added".to_string(), "two".to_string()),
        ("fixed".to_string(), "a bug".to_string()),
    ];
    let (out, err) = apply_entries(&changelog, content, &entries, None, None);
    assert!(err.is_none());
    assert!(out.contains("- one\n- two"));
    assert!(out.contains("### Fixed\n\n- a bug"));
}

#[test]
fn test_apply_entries_stops_at_first_error() {
    let content = "# Changelog\n\n## Unreleased\n\n### Added\n\n- one\n\n## 1.0.0 - 2024-01-01\n\n### Added\n\n- base\n";
    let changelog = Changelog::new();
    let entries = vec![
        ("added".to_string(), "two".to_string()),
        ("bogus".to_string(), "never applied".to_string()),
        ("fixed".to_string(), "also never applied".to_string()),
    ];
    let (out, err) = apply_entries(&changelog, content, &entries, None, None);
    assert_eq!(err, Some(ChangelogError::InvalidInput));
    // The first entry was applied and stays applied; the rest were not.
    assert!(out.contains("- one\n- two"));
    assert!(!out.contains("never applied"));
}
