use wanxiang_installer::actions::{
    aux_mode_choice, grammar_check, installed_choice, menu, needs_aux_code, pinyin_choice,
    schema_choice, switch_plan, update_all_plan, Action, Choice, GrammarCheck, HasUpdate,
    InstalledChoice, Plan, Required,
};
use wanxiang_installer::modules::custom::Custom;
use wanxiang_installer::options::{AuxCode, AuxMode, Pinyin, Schema};

#[test]
fn menu_reflects_updates() {
    assert_eq!(
        menu(HasUpdate { schema: true, grammar: true }, true),
        vec![Action::UpdateAll, Action::UpdateSchema, Action::UpdateGrammar, Action::SwitchSchema, Action::Exit]
    );
    assert_eq!(
        menu(HasUpdate { schema: false, grammar: false }, true)[1..3].to_vec(),
        vec![Action::ForceUpdateSchema, Action::ForceUpdateGrammar]
    );
    assert_eq!(menu(HasUpdate { schema: false, grammar: true }, false)[2], Action::InstallGrammar);
    assert_eq!(Action::ForceUpdateSchema.name(), "更新输入方案（强制更新）");
    assert_eq!(Action::Install.name(), "Install");
}

#[test]
fn plans() {
    assert_eq!(update_all_plan(HasUpdate { schema: false, grammar: false }), None);
    assert_eq!(
        update_all_plan(HasUpdate { schema: false, grammar: true }),
        Some(Plan { install_schema: false, apply_config: false, install_grammar: true })
    );
    let custom = Custom { pinyin: Some(Pinyin::Full), aux_mode: None };
    let other = Custom { pinyin: Some(Pinyin::Mspy), aux_mode: None };
    assert_eq!(switch_plan(Some((Schema::Base, custom)), Schema::Base, custom), None);
    assert_eq!(
        switch_plan(Some((Schema::Base, custom)), Schema::Base, other),
        Some(Plan { install_schema: false, apply_config: true, install_grammar: false })
    );
    assert_eq!(
        switch_plan(Some((Schema::Pro(Some(AuxCode::Zrm)), custom)), Schema::Pro(Some(AuxCode::Moqi)), custom),
        Some(Plan { install_schema: true, apply_config: false, install_grammar: false })
    );
    assert_eq!(
        switch_plan(None, Schema::Base, custom),
        Some(Plan { install_schema: true, apply_config: true, install_grammar: false })
    );
}

#[test]
fn questions() {
    let all = Required { schema: true, config: true, with_grammar: true };
    let none = Required { schema: false, config: false, with_grammar: false };
    assert_eq!(schema_choice(none, Some(Schema::Base), false), Choice::Skip);
    assert_eq!(schema_choice(all, Some(Schema::Base), false), Choice::Use(Schema::Base));
    assert_eq!(schema_choice(all, Some(Schema::Base), true), Choice::Ask(Some(Schema::Base)));
    assert_eq!(schema_choice(all, None, false), Choice::Ask(None));
    assert_eq!(pinyin_choice(all, Some(Pinyin::Sdpy)), Choice::Ask(Some(Pinyin::Sdpy)));
    assert_eq!(pinyin_choice(none, Some(Pinyin::Sdpy)), Choice::Skip);
    assert!(needs_aux_code(Some(Schema::Pro(None))));
    assert!(!needs_aux_code(Some(Schema::Pro(Some(AuxCode::Wx)))));
    assert!(!needs_aux_code(None));
    assert_eq!(aux_mode_choice(Some(Schema::Base), Some(AuxMode::Direct), false), Choice::Skip);
    assert_eq!(
        aux_mode_choice(Some(Schema::Pro(None)), Some(AuxMode::Direct), false),
        Choice::Use(AuxMode::Direct)
    );
    assert_eq!(aux_mode_choice(Some(Schema::Pro(None)), None, false), Choice::Ask(None));
}

#[test]
fn choosing_among_installed_and_grammar_check() {
    assert_eq!(installed_choice(0), InstalledChoice::Nothing);
    assert_eq!(installed_choice(1), InstalledChoice::Only);
    assert_eq!(installed_choice(2), InstalledChoice::Ask);
    assert_eq!(grammar_check(false, true), GrammarCheck::NotInstalled);
    assert_eq!(grammar_check(true, true), GrammarCheck::AskServer);
    assert_eq!(grammar_check(true, false), GrammarCheck::Unknown);
}
