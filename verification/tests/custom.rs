use wanxiang_installer::modules::custom::{
    apply_targets, custom_file_name, custom_from_names, custom_values, detect, names_of, rewrite,
    rewrite_values, Custom, RewriteError,
};
use wanxiang_installer::options::{AuxMode, Pinyin, Schema};
use wanxiang_installer::yaml::Document;

fn doc(source: &str) -> Document {
    Document::read(source).unwrap_or_else(|_| panic!("not loaded"))
}

const CUSTOM: &str = "patch:\n  speller/algebra:\n    __patch:\n      - wanxiang_algebra:/pro/小鹤双拼\n      - wanxiang_algebra:/pro/直接辅助\n      - wanxiang_algebra:/pro/kill_fuzhu\n";

const SCHEMA: &str = "schema:\n  version: \"1.0.0\"\nspeller:\n  algebra:\n    __patch:\n      - wanxiang_algebra:/base/全拼\n";

#[test]
fn detect_reads_the_custom_file_first() {
    let custom = doc(CUSTOM);
    let schema = doc(SCHEMA);
    let expected = Custom { pinyin: Some(Pinyin::Flypy), aux_mode: Some(AuxMode::Direct) };
    assert_eq!(detect(Some(&custom), None), Some(expected));
    assert_eq!(detect(Some(&custom), Some(&schema)), Some(expected));
}

#[test]
fn detect_falls_back_to_the_schema_file() {
    let custom = doc("patch:\n  other: 1\n");
    let schema = doc(SCHEMA);
    assert_eq!(detect(Some(&custom), None), None);
    assert_eq!(detect(None, None), None);
    assert_eq!(
        detect(Some(&custom), Some(&schema)),
        Some(Custom { pinyin: Some(Pinyin::Full), aux_mode: None })
    );
}

#[test]
fn detect_reads_every_custom_path() {
    let custom = doc("patch:\n  speller/algebra/__include:\n    - wanxiang_algebra:/pro/间接辅助\n  speller/algebra:\n    __include:\n      - wanxiang_algebra:/pro/微软双拼\n");
    assert_eq!(
        detect(Some(&custom), None),
        Some(Custom { pinyin: Some(Pinyin::Mspy), aux_mode: Some(AuxMode::Indirect) })
    );
}

#[test]
fn names_come_from_algebra_references() {
    let patches = vec![
        "wanxiang_algebra:/base/全拼".to_string(),
        "wanxiang_algebra:/other/全拼".to_string(),
        "wanxiang_algebra:/pro/".to_string(),
        "prefix wanxiang_algebra:/pro/x".to_string(),
        "wanxiang_algebra:/pro/a\nb".to_string(),
        "wanxiang_algebra:/pro/间接辅助".to_string(),
    ];
    assert_eq!(names_of(&patches), vec!["全拼".to_string(), "间接辅助".to_string()]);
}

#[test]
fn first_layout_in_offered_order_and_indirect_first() {
    let names = vec!["自然龙".to_string(), "全拼".to_string(), "直接辅助".to_string(), "间接辅助".to_string()];
    assert_eq!(
        custom_from_names(&names),
        Custom { pinyin: Some(Pinyin::Full), aux_mode: Some(AuxMode::Indirect) }
    );
    assert_eq!(custom_from_names(&vec![]), Custom { pinyin: None, aux_mode: None });
}

#[test]
fn rewrite_replaces_the_references() {
    let custom = Custom { pinyin: Some(Pinyin::Mspy), aux_mode: Some(AuxMode::Indirect) };
    let out = rewrite(CUSTOM, "pro", custom).unwrap_or_else(|_| panic!("rejected"));
    assert_eq!(
        out,
        "patch:\n  speller/algebra:\n    __patch:\n      - wanxiang_algebra:/pro/微软双拼\n      - wanxiang_algebra:/pro/间接辅助\n      - wanxiang_algebra:/pro/kill_fuzhu\n"
    );
    let back = rewrite(&out, "pro", Custom { pinyin: Some(Pinyin::Flypy), aux_mode: Some(AuxMode::Direct) })
        .unwrap_or_else(|_| panic!("rejected"));
    assert_eq!(back, CUSTOM);
    let detected = detect(Some(&doc(&out)), None);
    assert_eq!(detected, Some(custom));
}

#[test]
fn rewrite_keeps_matching_references() {
    let custom = Custom { pinyin: Some(Pinyin::Flypy), aux_mode: Some(AuxMode::Direct) };
    assert_eq!(rewrite(CUSTOM, "pro", custom).ok().as_deref(), Some(CUSTOM));
    let no_mode = Custom { pinyin: Some(Pinyin::Flypy), aux_mode: None };
    assert_eq!(rewrite(CUSTOM, "pro", no_mode).ok().as_deref(), Some(CUSTOM));
}

#[test]
fn rewrite_only_touches_its_group() {
    let source = "patch:\n  speller/algebra/__patch:\n    - wanxiang_algebra:/reverse/全拼\n    - wanxiang_algebra:/pro/全拼\n";
    let custom = Custom { pinyin: Some(Pinyin::Sogou), aux_mode: None };
    assert_eq!(
        rewrite(source, "reverse", custom).ok().as_deref(),
        Some("patch:\n  speller/algebra/__patch:\n    - wanxiang_algebra:/reverse/搜狗双拼\n    - wanxiang_algebra:/pro/全拼\n")
    );
}

#[test]
fn rewrite_replaces_an_aliased_reference_once() {
    let source = "patch:\n  speller/algebra:\n    __patch: &refs\n      - wanxiang_algebra:/pro/小鹤双拼\n    __include: *refs\n";
    let custom = Custom { pinyin: Some(Pinyin::Mspy), aux_mode: None };
    assert_eq!(
        rewrite(source, "pro", custom).ok().as_deref(),
        Some("patch:\n  speller/algebra:\n    __patch: &refs\n      - wanxiang_algebra:/pro/微软双拼\n    __include: *refs\n")
    );
}

#[test]
fn rewrite_makes_an_aliased_reference_twice() {
    // The loader gives the aliased reference twice; each replacement is made
    // on the bytes that the reference spanned in the file as read.
    let source = "patch:\n  speller/algebra:\n    __patch: &refs\n      - wanxiang_algebra:/pro/全拼\n    __include: *refs\n";
    let custom = Custom { pinyin: Some(Pinyin::Flypy), aux_mode: None };
    assert_eq!(
        rewrite(source, "pro", custom).ok().as_deref(),
        Some("patch:\n  speller/algebra:\n    __patch: &refs\n      - wanxiang_algebra:/pro/小鹤双拼双拼\n    __include: *refs\n")
    );
}

#[test]
fn rewrite_refuses_a_replacement_inside_a_character() {
    let source = "patch:\n  speller/algebra:\n    __patch: &refs [wanxiang_algebra:/pro/小鹤双拼,中中]\n    __include: *refs\n";
    let custom = Custom { pinyin: Some(Pinyin::Full), aux_mode: None };
    assert!(matches!(rewrite(source, "pro", custom), Err(RewriteError::EditOutOfPlace)));
}

#[test]
fn rewrite_errors() {
    let custom = Custom { pinyin: Some(Pinyin::Mspy), aux_mode: Some(AuxMode::Indirect) };
    assert!(matches!(rewrite(CUSTOM, "base", custom), Err(RewriteError::MissingPinyin)));
    let only_pinyin = "patch:\n  speller/algebra/__patch:\n    - wanxiang_algebra:/pro/全拼\n";
    assert!(matches!(rewrite(only_pinyin, "pro", custom), Err(RewriteError::MissingAuxMode)));
    assert!(matches!(rewrite("a: [", "pro", custom), Err(RewriteError::Load(_))));
    assert!(matches!(rewrite("", "pro", custom), Err(RewriteError::Empty)));
}

#[test]
fn apply_targets_cover_the_edition_and_reverse_lookup() {
    let custom = Custom { pinyin: Some(Pinyin::Gbpy), aux_mode: Some(AuxMode::Direct) };
    let targets = apply_targets(Schema::Pro(None), custom);
    assert_eq!(targets.len(), 2);
    assert_eq!((targets[0].schema_id, targets[0].group), ("wanxiang_pro", "pro"));
    assert_eq!(targets[0].custom, custom);
    assert_eq!((targets[1].schema_id, targets[1].group), ("wanxiang_reverse", "reverse"));
    assert_eq!(targets[1].custom, Custom { pinyin: Some(Pinyin::Gbpy), aux_mode: None });
    assert_eq!(custom_file_name("wanxiang"), "wanxiang.custom.yaml");
}

#[test]
fn rewrite_values_works_on_the_given_values() {
    let custom = Custom { pinyin: Some(Pinyin::Mspy), aux_mode: Some(AuxMode::Indirect) };
    let values = custom_values(&doc(CUSTOM));
    assert_eq!(values.len(), 3);
    assert_eq!(
        rewrite_values(CUSTOM, &values, "pro", custom).ok().as_deref(),
        rewrite(CUSTOM, "pro", custom).ok().as_deref()
    );
    assert!(matches!(rewrite_values(CUSTOM, &vec![], "pro", custom), Err(RewriteError::MissingPinyin)));
}
