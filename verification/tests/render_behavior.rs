//! Rendering behavior: normalization, link regeneration, header
//! preservation, and idempotence of formatting.

use changelog::commands::parse_document;
use changelog::render::{changelog_to_markdown, remove_markdown_links};

#[test]
fn test_changelog_with_github_urls() {
    let input = r#"# Changelog

## Unreleased

### Added
- New feature

## 1.0.0 - 2025-01-01

### Added
- Initial release"#;

    let expected = r#"# Changelog

## [Unreleased]

### Added
- New feature

## [1.0.0] - 2025-01-01

### Added
- Initial release

[Unreleased]: https://github.com/owner/repo/compare/v1.0.0...HEAD
[1.0.0]: https://github.com/owner/repo/releases/tag/v1.0.0
"#;

    let doc = parse_document(input).unwrap();
    let markdown = changelog_to_markdown(&doc, input, Some(("owner", "repo")));
    assert_eq!(markdown, expected);
}

#[test]
fn test_changelog_to_markdown() {
    let content = r#"# Changelog
All notable changes to this project will be documented in this file.

## [Unreleased]

## [1.0.0] - 2025-01-01

### Added

- First release
- Cool new feature
"#;
    let doc = parse_document(content).unwrap();
    let markdown = changelog_to_markdown(&doc, content, None);

    let expected = r#"# Changelog
All notable changes to this project will be documented in this file.

## Unreleased

## 1.0.0 - 2025-01-01

### Added

- First release
- Cool new feature
"#;
    assert_eq!(markdown, expected);
}

#[test]
fn test_fmt_is_idempotent() {
    let initial_content = r#"# Changelog

## [Unreleased]

### Added
- Feature A

## [1.0.0] - 2025-01-01

### Added
- Initial release"#;

    // First format without GitHub links
    let first_parse = parse_document(initial_content).unwrap();
    let first_format = changelog_to_markdown(&first_parse, initial_content, None);

    // Second format without GitHub links
    let second_parse = parse_document(&first_format).unwrap();
    let second_format = changelog_to_markdown(&second_parse, &first_format, None);

    // Formats should be identical without GitHub links (ignoring trailing whitespace)
    assert_eq!(first_format.trim_end(), second_format.trim_end());

    // Now test with GitHub links
    let remote = Some(("owner", "repo"));

    // First format with GitHub links
    let github_parse = parse_document(initial_content).unwrap();
    let github_format = changelog_to_markdown(&github_parse, initial_content, remote);

    // Second format with GitHub links
    let github_second_parse = parse_document(&github_format).unwrap();
    let github_second_format = changelog_to_markdown(&github_second_parse, &github_format, remote);

    // Formats should be identical with GitHub links (ignoring trailing whitespace)
    assert_eq!(github_format.trim_end(), github_second_format.trim_end());

    // Verify GitHub links are present
    assert!(github_format.contains("//github.com/owner/repo"));
    assert!(
        github_format.contains("[Unreleased]: https://github.com/owner/repo/compare/v1.0.0...HEAD")
    );
    assert!(github_format.contains("[1.0.0]: https://github.com/owner/repo/releases/tag/v1.0.0"));
}

#[test]
fn test_changelog_format_exact() {
    let input = r#"# Changelog

## [Unreleased]

### Added

- stuff

### Changed

### Deprecated

### Removed

### Fixed

### Security

## [1.0.0]

### Added

- things"#;

    let expected = r#"# Changelog

## Unreleased

### Added

- stuff

## 1.0.0

### Added

- things
"#;

    let doc = parse_document(input).unwrap();
    let markdown = changelog_to_markdown(&doc, input, None);
    assert_eq!(markdown, expected);
}

#[test]
fn test_changelog_format_with_date() {
    let input = r#"# Changelog

## [1.0.0] - 2025-02-06

### Added
- Initial release"#;

    let expected = r#"# Changelog

## 1.0.0 - 2025-02-06

### Added
- Initial release
"#;

    let doc = parse_document(input).unwrap();
    let markdown = changelog_to_markdown(&doc, input, None);
    assert_eq!(markdown, expected);
}

#[test]
fn test_preserve_original_header_custom() {
    let input = r#"Custom Header Line 1
Custom Header Line 2

## [Unreleased]

### Added

- entry
"#;
    let doc = parse_document(input).unwrap();
    let markdown = changelog_to_markdown(&doc, input, None);
    assert!(markdown.contains("Custom Header Line 1"));
    assert!(markdown.contains("Custom Header Line 2"));
}

#[test]
fn test_remove_markdown_links() {
    let content = r#"### Added
- Feature A

[0.1.0]: https://remove.me
[example]: https://keep.me
[1.0.0]: https://remove.me/too"#;

    let versions = vec!["0.1.0".to_string(), "1.0.0".to_string()];
    let result = remove_markdown_links(content, &versions);

    assert_eq!(
        result,
        r#"### Added
- Feature A

[example]: https://keep.me"#
    );
}

#[test]
fn test_search_replace_block_format() {
    let input = r#"# Changelog

## [Unreleased]

### Added
- New feature

## [1.0.0] - 2025-01-01

### Added
- Initial release

[Unreleased]: //incorrect/link
[1.0.0]: //incorrect/link
[0.9.0]: //incorrect/link
"#;
    let doc = parse_document(input).unwrap();
    let markdown = changelog_to_markdown(&doc, input, Some(("owner", "repo")));

    // Verify the markdown link definitions are removed and regenerated correctly
    assert!(!markdown.contains("//incorrect/link"));
    assert!(
        markdown.contains("[Unreleased]: https://github.com/owner/repo/compare/v1.0.0...HEAD")
    );
    assert!(markdown.contains("[1.0.0]: https://github.com/owner/repo/releases/tag/v1.0.0"));
    assert!(!markdown.contains("[0.9.0]:")); // Versions not in changelog should be removed
}

#[test]
fn test_update_incorrect_links() {
    let input = r#"# Changelog

## [Unreleased]

### Added
- New feature

## [1.0.0] - 2025-01-01

### Added
- Initial release

[Unreleased]: //incorrect/link
[1.0.0]: //incorrect/link
"#;
    let doc = parse_document(input).unwrap();
    let markdown = changelog_to_markdown(&doc, input, Some(("owner", "repo")));
    let expected = r#"# Changelog

## [Unreleased]

### Added
- New feature

## [1.0.0] - 2025-01-01

### Added
- Initial release

[Unreleased]: https://github.com/owner/repo/compare/v1.0.0...HEAD
[1.0.0]: https://github.com/owner/repo/releases/tag/v1.0.0
"#;
    assert_eq!(markdown, expected);
}

#[test]
fn test_link_correctness_two_releases() {
    let input = "# Changelog\n\n## [Unreleased]\n\n## [1.0.0] - 2025-01-01\n\n### Added\n- a\n";
    let doc = parse_document(input).unwrap();
    let markdown = changelog_to_markdown(&doc, input, Some(("owner", "repo")));
    assert!(
        markdown.contains("[Unreleased]: https://github.com/owner/repo/compare/v1.0.0...HEAD")
    );
    assert!(markdown.contains("[1.0.0]: https://github.com/owner/repo/releases/tag/v1.0.0"));
}

#[test]
fn test_no_remote_strips_all_brackets() {
    let input = "# Changelog\n\n## [Unreleased]\n\n### Added\n- a\n\n## [0.2.0] - 2024-05-05\n\n### Fixed\n- b\n";
    let doc = parse_document(input).unwrap();
    let markdown = changelog_to_markdown(&doc, input, None);
    assert!(!markdown.contains('['));
    assert!(!markdown.contains(']'));
}

#[test]
fn test_empty_sections_pruned() {
    let input = "# Changelog\n\n## [Unreleased]\n\n### Added\n\n### Changed\n\n### Security\n\n## 0.1.0\n\n### Fixed\n- real fix\n";
    let doc = parse_document(input).unwrap();
    let markdown = changelog_to_markdown(&doc, input, None);
    assert_eq!(
        markdown,
        "# Changelog\n\n## Unreleased\n\n## 0.1.0\n\n### Fixed\n- real fix\n"
    );
}

#[test]
fn test_extract_header_before_first_heading() {
    let header = changelog::document::extract_header("intro text\nmore\n\n## 1.0.0\n\n- x\n");
    assert_eq!(header.unwrap(), "intro text\nmore");
    let whole = changelog::document::extract_header("no releases at all\n");
    assert_eq!(whole.unwrap(), "no releases at all");
}
