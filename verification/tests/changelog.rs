use wanxiang_installer::changelog::{breaking_changes, read_heading, ChangelogError, Heading, Scan};
use wanxiang_installer::version::Version;

fn v(text: &str) -> Version {
    match Version::parse(text) {
        Ok(v) => v,
        Err(m) => panic!("{m}"),
    }
}

fn listed(changelog: &str, installed: &str, latest: &str) -> Vec<(String, String)> {
    match breaking_changes(changelog, &v(installed), &v(latest)) {
        Ok(changes) => changes
            .into_iter()
            .map(|(version, body)| {
                let mut text = format!("{}.{}.{}", version.major, version.minor, version.patch);
                if !version.pre.is_empty() {
                    text.push('-');
                    text.push_str(&version.pre);
                }
                (text, body)
            })
            .collect(),
        Err(_) => panic!("changelog rejected"),
    }
}

const LOG: &str = "# Changelog\n\n## [1.2.0] - 2024-01-01\n\n### ⚠ BREAKING CHANGES\n\n* drop x\n\n### Features\n\n* y\n\n## [1.1.0](https://example.com) (2023-12-01)\n\n### BREAKING CHANGES\n\n* old change\n* second line\n\n## 1.0.0\n### BREAKING CHANGES\n* ancient\n";

#[test]
fn lists_sections_in_range_in_order() {
    assert_eq!(
        listed(LOG, "1.0.0", "1.2.0"),
        vec![
            ("1.2.0".to_string(), "* drop x".to_string()),
            ("1.1.0".to_string(), "* old change\n* second line".to_string()),
        ]
    );
}

#[test]
fn installed_version_is_excluded_and_latest_included() {
    assert_eq!(listed(LOG, "1.1.0", "1.1.0"), Vec::<(String, String)>::new());
    assert_eq!(
        listed(LOG, "1.0.0", "1.1.0"),
        vec![("1.1.0".to_string(), "* old change\n* second line".to_string())]
    );
    assert_eq!(
        listed(LOG, "0.9.0", "1.0.0"),
        vec![("1.0.0".to_string(), "* ancient".to_string())]
    );
}

#[test]
fn sections_without_breaking_text_are_left_out() {
    let log = "## 2.0.0\n### Features\n* new\n## 1.5.0\n### BREAKING CHANGES\n\n   \n";
    assert_eq!(listed(log, "1.0.0", "2.0.0"), Vec::<(String, String)>::new());
}

#[test]
fn prerelease_dropped_when_its_release_is_in_range() {
    let log = "## v2.0.0\n### BREAKING CHANGES\n* final\n## v2.0.0-beta.1\n### BREAKING CHANGES\n* beta\n";
    assert_eq!(
        listed(log, "1.0.0", "2.0.0"),
        vec![("2.0.0".to_string(), "* final".to_string())]
    );
    assert_eq!(
        listed(log, "1.0.0", "2.0.0-beta.1"),
        vec![("2.0.0-beta.1".to_string(), "* beta".to_string())]
    );
}

#[test]
fn crlf_lines_and_trailing_section_are_read() {
    let log = "## 1.1.0\r\n### BREAKING CHANGES\r\n* a\r\n* b";
    assert_eq!(
        listed(log, "1.0.0", "1.1.0"),
        vec![("1.1.0".to_string(), "* a\n* b".to_string())]
    );
}

#[test]
fn heading_without_version_is_an_error() {
    match breaking_changes("## ]\n", &v("1.0.0"), &v("2.0.0")) {
        Err(ChangelogError::Heading(h)) => assert_eq!(h, "]"),
        _ => panic!("expected a heading error"),
    }
}

#[test]
fn heading_with_bad_version_is_an_error() {
    match breaking_changes("## Unreleased\n", &v("1.0.0"), &v("2.0.0")) {
        Err(ChangelogError::Version { text, message }) => {
            assert_eq!(text, "Unreleased");
            assert!(!message.is_empty());
        }
        _ => panic!("expected a version error"),
    }
}

#[test]
fn empty_changelog_lists_nothing() {
    assert_eq!(listed("", "1.0.0", "2.0.0"), Vec::<(String, String)>::new());
}

fn chars(text: &str) -> Vec<char> {
    text.chars().collect()
}

#[test]
fn read_heading_reads_the_version_and_its_range() {
    match read_heading("[1.2.0] - 2024-01-01", &v("1.0.0"), &v("2.0.0")) {
        Heading::Version { version, in_range } => {
            assert_eq!((version.major, version.minor, version.patch), (1, 2, 0));
            assert!(in_range);
        }
        _ => panic!("no version"),
    }
    match read_heading("v3.0.0", &v("1.0.0"), &v("2.0.0")) {
        Heading::Version { in_range, .. } => assert!(!in_range),
        _ => panic!("no version"),
    }
    assert!(matches!(read_heading("]", &v("1.0.0"), &v("2.0.0")), Heading::NoVersion));
    assert!(matches!(read_heading("1.x", &v("1.0.0"), &v("2.0.0")), Heading::BadVersion { .. }));
}

#[test]
fn scan_steps_through_given_headings() {
    let mut scan = Scan::new();
    let heading = Heading::Version { version: v("1.1.0"), in_range: true };
    assert!(scan.step(&chars("## 1.1.0"), Some(heading)).is_ok());
    assert!(scan.step(&chars("### BREAKING CHANGES"), None).is_ok());
    assert!(scan.step(&chars("* renamed"), None).is_ok());
    assert!(scan.step(&chars("## "), None).is_ok());
    assert_eq!(scan.changes.len(), 1);
    assert_eq!(scan.changes[0].1, "* renamed");
    assert_eq!(scan.stable, vec![(1, 1, 0)]);
    assert!(matches!(scan.step(&chars("## x"), None), Err(ChangelogError::Heading(h)) if h == "x"));
}
