use wanxiang_installer::config::{Config, ConfigError};
use wanxiang_installer::yaml::Document;

fn doc(source: &str) -> Document {
    Document::read(source).unwrap_or_else(|_| panic!("not loaded"))
}

#[test]
fn no_file_means_releases_only() {
    assert!(matches!(Config::load(None), Ok(Config { prerelease: false })));
    assert_eq!(Config::default(), Config { prerelease: false });
}

#[test]
fn load_reads_the_flag() {
    assert!(matches!(Config::load(Some(&doc("prerelease: true\n"))), Ok(Config { prerelease: true })));
    assert!(matches!(Config::load(Some(&doc("prerelease: false\n"))), Ok(Config { prerelease: false })));
}

#[test]
fn load_errors() {
    match Config::load(Some(&doc("other: 1\n"))) {
        Err(ConfigError::MissingField(p)) => assert_eq!(p, "prerelease"),
        _ => panic!("expected a missing field"),
    }
    assert!(matches!(Config::load(Some(&doc("prerelease: \"yes\"\n"))), Err(ConfigError::NotBool)));
}

#[test]
fn saved_text_loads_back() {
    for prerelease in [true, false] {
        let config = Config { prerelease };
        let text = config.to_yaml();
        assert_eq!(text, format!("prerelease: {prerelease}\n"));
        assert!(matches!(Config::load(Some(&doc(&text))), Ok(c) if c == config));
    }
}
