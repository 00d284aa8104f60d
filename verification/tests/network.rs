use wanxiang_installer::network::{if_modified_since, last_modified, remote_changed};

#[test]
fn http_dates() {
    assert_eq!(if_modified_since(0, 0).as_deref(), Some("Thu, 01 Jan 1970 00:00:00 GMT"));
    assert_eq!(
        if_modified_since(1_700_000_000, 5).as_deref(),
        Some("Tue, 14 Nov 2023 22:13:20 GMT")
    );
    assert_eq!(if_modified_since(i64::MAX, 0), None);
}

#[test]
fn last_modified_values() {
    assert_eq!(last_modified("Tue, 14 Nov 2023 22:13:20 GMT"), Some((1_700_000_000, 0)));
    assert_eq!(last_modified("Tue, 14 Nov 2023 23:13:20 +0100"), Some((1_700_000_000, 0)));
    assert_eq!(last_modified("yesterday"), None);
}

#[test]
fn not_modified_means_no_change() {
    assert!(!remote_changed(304));
    assert!(remote_changed(200));
}
