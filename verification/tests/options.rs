use wanxiang_installer::options::{AuxCode, AuxMode, Pinyin, Schema};

#[test]
fn schema_codes_and_ids() {
    assert_eq!(Schema::Base.code(), "base");
    assert_eq!(Schema::Pro(None).code(), "pro");
    assert_eq!(Schema::Base.schema_id(), "wanxiang");
    assert_eq!(Schema::Pro(Some(AuxCode::Moqi)).schema_id(), "wanxiang_pro");
    assert_eq!(Schema::Base.name(), "基础版 (Base)");
    assert_eq!(Schema::Pro(None).name(), "专业版 (Pro)");
    assert_eq!(Schema::all(), vec![Schema::Base, Schema::Pro(None)]);
}

#[test]
fn aux_codes() {
    let codes: Vec<&str> = AuxCode::all().into_iter().map(AuxCode::code).collect();
    assert_eq!(
        codes,
        vec!["zrm", "flypy", "moqi", "hanxin", "wubi", "tiger", "shouyou", "shyplus", "wx"]
    );
    assert_eq!(AuxCode::Shyplus.name(), "首右+");
    for a in AuxCode::all() {
        let chars: Vec<char> = a.code().chars().collect();
        assert_eq!(AuxCode::from_code(&chars), Some(a));
    }
    let unknown: Vec<char> = "zr".chars().collect();
    assert_eq!(AuxCode::from_code(&unknown), None);
}

#[test]
fn pinyin_names_identify_layouts() {
    assert_eq!(Pinyin::all().len(), 15);
    assert_eq!(Pinyin::Full.name(), "全拼");
    assert_eq!(Pinyin::Zrlong.name(), "自然龙");
    for p in Pinyin::all() {
        let chars: Vec<char> = p.name().chars().collect();
        assert_eq!(Pinyin::from_name(&chars), Some(p));
    }
    let chars: Vec<char> = "直接辅助".chars().collect();
    assert_eq!(Pinyin::from_name(&chars), None);
    assert_eq!(AuxMode::from_name(&chars), Some(AuxMode::Direct));
    assert_eq!(AuxMode::Indirect.name(), "间接辅助");
    assert_eq!(AuxMode::all(), vec![AuxMode::Direct, AuxMode::Indirect]);
}
