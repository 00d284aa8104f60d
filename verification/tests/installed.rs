use std::path::PathBuf;
use wanxiang_installer::installed_detector::{DetectError, InstalledGrammar, InstalledSchema};
use wanxiang_installer::modules::grammar::{detect, latest_from_assets, GRAMMAR_NAME};
use wanxiang_installer::digest::Asset;
use wanxiang_installer::options::{AuxCode, AuxMode, Pinyin, Schema};
use wanxiang_installer::yaml::Document;

fn doc(source: &str) -> Document {
    Document::read(source).unwrap_or_else(|_| panic!("not loaded"))
}

const SCHEMA: &str = "schema:\n  version: \"2.1.0\"\nspeller:\n  algebra:\n    __patch:\n      - wanxiang_algebra:/pro/智能ABC\n      - wanxiang_algebra:/pro/间接辅助\n";

#[test]
fn pro_edition_reads_its_package_from_meta_lua() {
    let found = InstalledSchema::from_documents(
        Schema::Pro(None),
        &doc(SCHEMA),
        None,
        Some("local M = {}\n  M.AUX_CODE = 'flypy'\nreturn M\n"),
    );
    let s = found.unwrap_or_else(|_| panic!("rejected"));
    assert_eq!(s.scheme, Schema::Pro(Some(AuxCode::Flypy)));
    assert_eq!(s.version, "2.1.0");
    assert_eq!(s.pinyin, Some(Pinyin::Znabc));
    assert_eq!(s.aux_mode, Some(AuxMode::Indirect));
}

#[test]
fn unknown_or_missing_package() {
    let s = InstalledSchema::from_documents(Schema::Pro(None), &doc(SCHEMA), None, Some("M.AUX_CODE = \"none\""))
        .unwrap_or_else(|_| panic!("rejected"));
    assert_eq!(s.scheme, Schema::Pro(None));
    let s = InstalledSchema::from_documents(Schema::Pro(None), &doc(SCHEMA), None, None)
        .unwrap_or_else(|_| panic!("rejected"));
    assert_eq!(s.scheme, Schema::Pro(None));
    let s = InstalledSchema::from_documents(Schema::Base, &doc(SCHEMA), None, Some("M.AUX_CODE = 'zrm'"))
        .unwrap_or_else(|_| panic!("rejected"));
    assert_eq!(s.scheme, Schema::Base);
}

#[test]
fn custom_file_patches_take_precedence() {
    let custom = doc("patch:\n  speller/algebra:\n    __patch:\n      - wanxiang_algebra:/pro/小鹤双拼\n");
    let s = InstalledSchema::from_documents(Schema::Base, &doc(SCHEMA), Some(&custom), None)
        .unwrap_or_else(|_| panic!("rejected"));
    assert_eq!(s.pinyin, Some(Pinyin::Flypy));
    assert_eq!(s.aux_mode, None);
}

#[test]
fn version_errors() {
    match InstalledSchema::from_documents(Schema::Base, &doc("schema:\n  name: x\n"), None, None) {
        Err(DetectError::MissingVersion(p)) => assert_eq!(p, "schema.version"),
        _ => panic!("expected a missing version"),
    }
    assert!(matches!(
        InstalledSchema::from_documents(Schema::Base, &doc("schema:\n  version: 2\n"), None, None),
        Err(DetectError::VersionNotString)
    ));
}

#[test]
fn grammar_detection() {
    let path = PathBuf::from("/rime").join(GRAMMAR_NAME);
    assert!(detect(path.clone(), false).is_none());
    assert_eq!(detect(path.clone(), true).map(|g| g.path), Some(path.clone()));
    assert_eq!(InstalledGrammar::detect(path.clone(), true).map(|g| g.path), Some(path));
    assert!(InstalledGrammar::detect(PathBuf::new(), false).is_none());
}

#[test]
fn latest_grammar_asset() {
    let assets = vec![
        Asset { name: "other".to_string(), browser_download_url: String::new(), digest: None },
        Asset { name: GRAMMAR_NAME.to_string(), browser_download_url: "u".to_string(), digest: None },
    ];
    let latest = latest_from_assets(&assets).unwrap_or_else(|| panic!("missing"));
    assert_eq!(latest.asset.browser_download_url, "u");
    assert!(latest_from_assets(&assets[..1].to_vec()).is_none());
}
