use wanxiang_installer::text::{ends_with, split_lines, starts_with, trimmed};

fn chars(s: &str) -> Vec<char> {
    s.chars().collect()
}

fn text(v: &[char]) -> String {
    v.iter().collect()
}

#[test]
fn lines_like_str_lines() {
    for s in ["", "a", "a\n", "a\r\nb\n\nc", "\n", "x\r", "a\n\n", "\r\n\r\n"] {
        let got: Vec<String> = split_lines(&chars(s)).iter().map(|l| text(l)).collect();
        let expected: Vec<String> = s.lines().map(str::to_string).collect();
        assert_eq!(got, expected, "{s:?}");
    }
}

#[test]
fn trim_like_str_trim() {
    for s in ["", "  ", " a b \n", "\u{3000}全角\u{3000}", "\t\r\nx"] {
        assert_eq!(text(&trimmed(&chars(s))), s.trim(), "{s:?}");
    }
}

#[test]
fn prefixes_and_suffixes() {
    assert!(starts_with(&chars("## x"), &chars("## ")));
    assert!(!starts_with(&chars("#"), &chars("## ")));
    assert!(ends_with(&chars("⚠ BREAKING CHANGES"), &chars("BREAKING CHANGES")));
    assert!(!ends_with(&chars("BREAKING CHANGE"), &chars("BREAKING CHANGES")));
}
