//! Command behavior: entry insertion, promotion, version queries, ranges,
//! and the rejected inputs.

use changelog::commands::Changelog;
use changelog::errors::ChangelogError;
use changelog::remote::parse_github_url;

const ADD_INPUT: &str = r#"# Changelog

## [Unreleased]

### Added

- one
- two

### Changed

- changed

## [1.0.0] - 2000-01-01

### Added

- something
"#;

#[test]
fn test_add_entry_to_section() {
    let changelog = Changelog::new();
    let content = changelog
        .add(Some(ADD_INPUT), "three", "added", None, None)
        .unwrap();
    let expected = r#"# Changelog

## Unreleased

### Added

- one
- two
- three

### Changed

- changed

## 1.0.0 - 2000-01-01

### Added

- something
"#;
    assert_eq!(content, expected);
}

#[test]
fn test_add_entry_creates_missing_section() {
    let input = r#"# Changelog

## [Unreleased]

### Changed

- something changed

## [1.0.0] - 2000-01-01

### Added

- something
"#;
    let changelog = Changelog::new();
    let content = changelog
        .add(Some(input), "new feature", "added", None, None)
        .unwrap();
    let expected = r#"# Changelog

## Unreleased

### Added

- new feature

### Changed

- something changed

## 1.0.0 - 2000-01-01

### Added

- something
"#;
    assert_eq!(content, expected);
}

#[test]
fn test_init_creates_changelog() {
    let changelog = Changelog::new();
    assert_eq!(changelog.path().as_str(), "CHANGELOG.md");

    let content = changelog.init(None);
    assert!(content.contains("# Changelog"));
    assert!(content.contains("## Unreleased"));

    // The generated content parses back with an Unreleased entry.
    let shown = changelog.version_show(Some(content.as_str()), "unreleased");
    assert!(shown.is_ok());
}

#[test]
fn test_promotion_ordering() {
    let input = "# Changelog\n\n## Unreleased\n\n### Added\n- x\n\n## 0.9.0 - 2024-01-01\n\n### Fixed\n- y\n";
    let changelog = Changelog::new();
    let (content, version) = changelog
        .release(Some(input), "1.0.0", Some("2025-01-01"), None)
        .unwrap();
    assert_eq!(version, "1.0.0");
    let expected = "# Changelog\n\n## Unreleased\n\n## 1.0.0 - 2025-01-01\n\n### Added\n- x\n\n## 0.9.0 - 2024-01-01\n\n### Fixed\n- y\n";
    assert_eq!(content, expected);

    // Key order after promotion: Unreleased, 1.0.0, 0.9.0.
    let versions = changelog.version_list(Some(content.as_str())).unwrap();
    assert_eq!(versions, vec!["1.0.0".to_string(), "0.9.0".to_string()]);
    assert!(changelog
        .version_show(Some(content.as_str()), "unreleased")
        .is_ok());
}

#[test]
fn test_release_with_bump_keyword() {
    let input = "# Changelog\n\n## Unreleased\n\n### Added\n- x\n\n## 1.2.3 - 2024-01-01\n\n### Fixed\n- y\n";
    let changelog = Changelog::new();
    let (content, version) = changelog
        .release(Some(input), "minor", Some("2025-06-30"), None)
        .unwrap();
    assert_eq!(version, "1.3.0");
    assert!(content.contains("## 1.3.0 - 2025-06-30"));
}

#[test]
fn test_version_bump_arithmetic() {
    assert_eq!(
        changelog::bump::get_next_version("1.2.3", "major").unwrap(),
        "2.0.0"
    );
    assert_eq!(
        changelog::bump::get_next_version("1.2.3", "minor").unwrap(),
        "1.3.0"
    );
    assert_eq!(
        changelog::bump::get_next_version("1.2.3", "patch").unwrap(),
        "1.2.4"
    );
    assert_eq!(
        changelog::bump::get_next_version("not-a-version", "major"),
        Err(ChangelogError::InvalidData)
    );
    assert_eq!(
        changelog::bump::get_next_version("1.2.3", "bogus"),
        Err(ChangelogError::InvalidInput)
    );
}

#[test]
fn test_rejected_inputs() {
    let content = "# Changelog\n\n## Unreleased\n\n## 1.0.0 - 2024-01-01\n\n### Added\n- a\n";
    let changelog = Changelog::new();

    // range("v1.0.0") is rejected before anything else is looked at.
    assert_eq!(
        changelog.range(Some(content), Some("v1.0.0")),
        Err(ChangelogError::InvalidInput)
    );
    assert_eq!(
        changelog.range(None, Some("v1.0.0")),
        Err(ChangelogError::InvalidInput)
    );

    // release("1.2.3.4") is not a valid semantic version.
    assert_eq!(
        changelog.release(Some(content), "1.2.3.4", Some("2025-01-01"), None),
        Err(ChangelogError::InvalidInput)
    );

    // add with an unknown change type.
    assert_eq!(
        changelog.add(Some(content), "desc", "bogus", None, None),
        Err(ChangelogError::InvalidInput)
    );

    // add to a version that is not in the document.
    assert_eq!(
        changelog.add(Some(content), "desc", "added", Some("9.9.9"), None),
        Err(ChangelogError::NotFound)
    );
}

#[test]
fn test_missing_file_and_bad_data() {
    let changelog = Changelog::new();
    assert_eq!(changelog.fmt(None, None), Err(ChangelogError::NotFound));
    assert_eq!(
        changelog.version_latest(None),
        Err(ChangelogError::NotFound)
    );
    assert_eq!(
        changelog.fmt(Some("not a changelog at all"), None),
        Err(ChangelogError::InvalidData)
    );
    // Duplicate versions are rejected by the parser.
    let dup = "# C\n\n## 1.0.0\n\n- a\n\n## 1.0.0\n\n- b\n";
    assert_eq!(changelog.fmt(Some(dup), None), Err(ChangelogError::InvalidData));
}

#[test]
fn test_version_latest_and_list() {
    let content = "# Changelog\n\n## Unreleased\n\n## 2.1.0 - 2025-03-03\n\n### Added\n- a\n\n## 2.0.0 - 2025-01-01\n\n### Added\n- b\n";
    let changelog = Changelog::new();
    assert_eq!(changelog.version_latest(Some(content)).unwrap(), "2.1.0");
    assert_eq!(
        changelog.version_list(Some(content)).unwrap(),
        vec!["2.1.0".to_string(), "2.0.0".to_string()]
    );

    let none_released = "# Changelog\n\n## Unreleased\n\n### Added\n- a\n";
    assert_eq!(
        changelog.version_latest(Some(none_released)),
        Err(ChangelogError::NotFound)
    );
}

#[test]
fn test_version_show_resolution() {
    let content = "# Changelog\n\n## Unreleased\n\n### Added\n- pending\n\n## 1.0.0 - 2025-01-01\n\n### Added\n- done\n";
    let changelog = Changelog::new();
    assert_eq!(
        changelog.version_show(Some(content), "latest").unwrap(),
        "## 1.0.0 - 2025-01-01\n\n### Added\n- done"
    );
    assert_eq!(
        changelog.version_show(Some(content), "Unreleased").unwrap(),
        "## Unreleased\n\n### Added\n- pending"
    );
    assert_eq!(
        changelog.version_show(Some(content), "1.0.0").unwrap(),
        "## 1.0.0 - 2025-01-01\n\n### Added\n- done"
    );
    assert_eq!(
        changelog.version_show(Some(content), "3.0.0"),
        Err(ChangelogError::NotFound)
    );
}

#[test]
fn test_range_computation() {
    let content = "# Changelog\n\n## Unreleased\n\n## 2.0.0 - 2025-02-02\n\n### Added\n- a\n\n## 1.0.0 - 2025-01-01\n\n### Added\n- b\n";
    let changelog = Changelog::new();

    // No version: most recent release up to HEAD.
    assert_eq!(changelog.range(Some(content), None).unwrap(), "v2.0.0..HEAD");
    // A version with an older neighbour.
    assert_eq!(
        changelog.range(Some(content), Some("2.0.0")).unwrap(),
        "v1.0.0..v2.0.0"
    );
    // The oldest version has nothing to diff against.
    assert_eq!(changelog.range(Some(content), Some("1.0.0")).unwrap(), "v1.0.0");
    // An unknown version also yields only the end of the range.
    assert_eq!(changelog.range(Some(content), Some("5.0.0")).unwrap(), "v5.0.0");

    // No released versions at all: the range is just HEAD.
    let none_released = "# Changelog\n\n## Unreleased\n\n### Added\n- a\n";
    assert_eq!(changelog.range(Some(none_released), None).unwrap(), "HEAD");
}

#[test]
fn test_show_diff_blocks() {
    let old_content = "# Changelog\n\n## Unreleased\n\n### Added\n- a\n";
    let new_content = "# Changelog\n\n## Unreleased\n\n### Added\n- a\n- b\n";
    let changelog = Changelog::new();

    // Identical texts diff to all-equal lines.
    let same = changelog.show_diff(None, old_content, old_content).unwrap();
    assert!(same.len() > 0);
    assert!(same.iter().all(|c| c.0 == 0));

    // A new entry shows up as an insertion.
    let diff = changelog.show_diff(None, old_content, new_content).unwrap();
    assert!(diff.iter().any(|c| c.0 == 2 && c.1.contains("- b")));
    assert!(diff.iter().any(|c| c.0 == 0));

    // Unparseable text is invalid data.
    assert_eq!(
        changelog.show_diff(None, "garbage", new_content),
        Err(ChangelogError::InvalidData)
    );
}

#[test]
fn test_parse_github_url() {
    assert_eq!(
        parse_github_url("git@github.com:owner/repo.git"),
        Some(("owner".to_string(), "repo".to_string()))
    );
    assert_eq!(
        parse_github_url("https://github.com/owner/repo.git"),
        Some(("owner".to_string(), "repo".to_string()))
    );
    assert_eq!(
        parse_github_url("https://github.com/owner/repo"),
        Some(("owner".to_string(), "repo".to_string()))
    );
    assert_eq!(parse_github_url("https://gitlab.com/owner/repo"), None);
    assert_eq!(parse_github_url("https://github.com/owneronly"), None);
}

#[test]
fn test_bump_at_u64_limit() {
    // The one version that cannot be bumped further in its major component.
    assert_eq!(
        changelog::bump::get_next_version("18446744073709551615.0.0", "major"),
        Err(ChangelogError::Other)
    );
}

#[test]
fn test_release_defaults_to_today() {
    let input = "# Changelog\n\n## Unreleased\n\n### Added\n- x\n\n## 1.0.0 - 2024-01-01\n\n### Added\n- y\n";
    let changelog = Changelog::new();
    let (content, version) = changelog.release(Some(input), "patch", None, None).unwrap();
    assert_eq!(version, "1.0.1");
    assert!(content.contains("## 1.0.1 - "));
}
