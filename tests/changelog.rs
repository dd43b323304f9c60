use todo_overlay::changelog::extract_local_changelog;

const CHANGELOG: &str = "# Changelog\n\n## [0.2.3] - 2025-02-01\n\n### Fixed\n- Reminder sound\n\n## [0.2.2] - 2025-01-20\n\n### Added\n- Lists\n- Labels\n\n## [0.2.1] - 2025-01-10\n\n- First release\n";

#[test]
fn test_extract_local_changelog() {
    let result = extract_local_changelog(CHANGELOG, "0.2.2");
    assert!(result.is_ok());
}

#[test]
fn changelog_section_is_trimmed_and_stops_at_next_header() {
    let result = extract_local_changelog(CHANGELOG, "0.2.2").unwrap();
    assert_eq!(result, "### Added\n- Lists\n- Labels");
}

#[test]
fn changelog_last_section_runs_to_end() {
    let result = extract_local_changelog(CHANGELOG, "0.2.1").unwrap();
    assert_eq!(result, "- First release");
}

#[test]
fn changelog_unknown_version_is_an_error() {
    let result = extract_local_changelog(CHANGELOG, "9.9.9");
    assert_eq!(result, Err("No changelog found for version 9.9.9".to_string()));
}

#[test]
fn changelog_empty_section_is_an_error() {
    let text = "## [1.0.0]\n## [0.9.0]\n- old\n";
    let result = extract_local_changelog(text, "1.0.0");
    assert_eq!(result, Err("No changelog found for version 1.0.0".to_string()));
}

#[test]
fn changelog_crlf_lines() {
    let text = "## [1.0.0]\r\n- a\r\n- b\r\n";
    let result = extract_local_changelog(text, "1.0.0").unwrap();
    assert_eq!(result, "- a\n- b");
}
