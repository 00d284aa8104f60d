use wanxiang_installer::digest::Asset;
use wanxiang_installer::installed_detector::InstalledSchema;
use wanxiang_installer::modules::schema::{
    asset, asset_name, check_update, needs_cleanup, schema_file_name, tag_version, CheckError,
    LatestSchema,
};
use wanxiang_installer::options::{AuxCode, Schema};

fn installed(version: &str) -> InstalledSchema {
    InstalledSchema { scheme: Schema::Base, version: version.to_string(), pinyin: None, aux_mode: None }
}

fn latest(tag: &str, names: &[&str]) -> LatestSchema {
    LatestSchema {
        tag_name: tag.to_string(),
        assets: names
            .iter()
            .map(|n| Asset { name: n.to_string(), browser_download_url: String::new(), digest: None })
            .collect(),
    }
}

#[test]
fn update_when_the_release_is_newer() {
    assert!(matches!(check_update(&installed("1.0.0"), &latest("v1.1.0", &[])), Ok(true)));
    assert!(matches!(check_update(&installed("1.1.0"), &latest("v1.1.0", &[])), Ok(false)));
    assert!(matches!(check_update(&installed("1.2.0"), &latest("1.1.0", &[])), Ok(false)));
    assert!(matches!(check_update(&installed("1.1.0-beta.1"), &latest("vv1.1.0", &[])), Ok(true)));
}

#[test]
fn unparsable_versions_are_errors() {
    assert!(matches!(check_update(&installed("abc"), &latest("v1.0.0", &[])), Err(CheckError::Installed(_))));
    assert!(matches!(check_update(&installed("1.0.0"), &latest("release", &[])), Err(CheckError::Latest(_))));
}

#[test]
fn tag_loses_leading_vs() {
    assert_eq!(tag_version("vv1.2.3"), "1.2.3");
    assert_eq!(tag_version("1.2.3v"), "1.2.3v");
    assert_eq!(tag_version(""), "");
}

#[test]
fn asset_names() {
    assert_eq!(asset_name(Schema::Base), "rime-wanxiang-base.zip");
    assert_eq!(asset_name(Schema::Pro(Some(AuxCode::Flypy))), "rime-wanxiang-flypy-fuzhu.zip");
    assert_eq!(asset_name(Schema::Pro(Some(AuxCode::Wx))), "rime-wanxiang-wx-fuzhu.zip");
}

#[test]
fn asset_is_chosen_by_name() {
    let release = latest("v1.0.0", &["rime-wanxiang-base.zip", "rime-wanxiang-moqi-fuzhu.zip"]);
    let found = asset(Schema::Pro(Some(AuxCode::Moqi)), &release).unwrap_or_else(|| panic!("missing"));
    assert_eq!(found.name, "rime-wanxiang-moqi-fuzhu.zip");
    assert!(asset(Schema::Pro(Some(AuxCode::Zrm)), &release).is_none());
    assert!(asset(Schema::Pro(None), &latest("v1.0.0", &[])).is_none());
}

#[test]
fn cleanup_only_when_the_edition_changes() {
    assert!(needs_cleanup(Schema::Base, Schema::Pro(Some(AuxCode::Zrm))));
    assert!(needs_cleanup(Schema::Pro(None), Schema::Base));
    assert!(!needs_cleanup(Schema::Pro(Some(AuxCode::Zrm)), Schema::Pro(Some(AuxCode::Moqi))));
    assert!(!needs_cleanup(Schema::Base, Schema::Base));
    assert_eq!(schema_file_name(Schema::Pro(None)), "wanxiang_pro.schema.yaml");
}
