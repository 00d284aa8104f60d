use wanxiang_installer::version::Version;

fn v(text: &str) -> Version {
    Version::parse(text).unwrap_or_else(|m| panic!("{m}"))
}

#[test]
fn parse_reads_all_parts() {
    let version = v("1.22.333-rc.1+build.5");
    assert_eq!((version.major, version.minor, version.patch), (1, 22, 333));
    assert_eq!(version.pre, "rc.1");
    assert_eq!(version.build, "build.5");
    assert!(!version.is_release());
    assert!(v("1.0.0").is_release());
}

#[test]
fn parse_rejects_non_versions() {
    assert!(Version::parse("v1.0.0").is_err());
    assert!(Version::parse("1.0").is_err());
    assert!(Version::parse("").is_err());
}

#[test]
fn precedence() {
    assert!(v("1.0.1").greater_than(&v("1.0.0")));
    assert!(v("2.0.0").greater_than(&v("1.9.9")));
    assert!(v("1.10.0").greater_than(&v("1.9.0")));
    assert!(!v("1.9.0").greater_than(&v("1.10.0")));
    assert!(v("1.0.0").greater_than(&v("1.0.0-rc.1")));
    assert!(v("1.0.0-rc.2").greater_than(&v("1.0.0-rc.1")));
    assert!(!v("1.0.0").greater_than(&v("1.0.0")));
    assert!(!v("1.0.0-alpha").greater_than(&v("1.0.0")));
}
