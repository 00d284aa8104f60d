//! The installer's decisions between prompts: which actions to offer, what an
//! action will do, and which questions to ask.

use vstd::prelude::*;
use crate::modules::custom::Custom;
use crate::options::{AuxMode, Pinyin, Schema};

verus! {

/// What the user can ask the installer to do.
#[derive(Clone, Copy, Debug, PartialEq, Eq, Structural)]
pub enum Action {
    Install,
    UpdateAll,
    UpdateSchema,
    ForceUpdateSchema,
    InstallGrammar,
    UpdateGrammar,
    ForceUpdateGrammar,
    SwitchSchema,
    Exit,
}

impl Action {
    pub open spec fn spec_name(self) -> Seq<char> {
        match self {
            Action::Install => "Install"@,
            Action::UpdateAll => "更新全部"@,
            Action::UpdateSchema => "更新输入方案"@,
            Action::ForceUpdateSchema => "更新输入方案（强制更新）"@,
            Action::InstallGrammar => "安装语法模型"@,
            Action::UpdateGrammar => "更新语法模型"@,
            Action::ForceUpdateGrammar => "更新语法模型（强制更新）"@,
            Action::SwitchSchema => "切换方案"@,
            Action::Exit => "退出"@,
        }
    }

    /// The name shown in the menu.
    pub fn name(self) -> (r: &'static str)
        ensures
            r@ == self.spec_name(),
    {
        match self {
            Action::Install => "Install",
            Action::UpdateAll => "更新全部",
            Action::UpdateSchema => "更新输入方案",
            Action::ForceUpdateSchema => "更新输入方案（强制更新）",
            Action::InstallGrammar => "安装语法模型",
            Action::UpdateGrammar => "更新语法模型",
            Action::ForceUpdateGrammar => "更新语法模型（强制更新）",
            Action::SwitchSchema => "切换方案",
            Action::Exit => "退出",
        }
    }
}

/// Which parts have a newer release.
#[derive(Clone, Copy, Debug, PartialEq, Eq, Structural)]
pub struct HasUpdate {
    pub schema: bool,
    pub grammar: bool,
}

/// The menu offered when a schema is installed: update everything, update
/// the schema (forced when it is current), install or update the grammar
/// model (forced when it is current), switch the schema, exit.
pub fn menu(has_update: HasUpdate, grammar_installed: bool) -> (r: Vec<Action>)
    ensures
        r@ == seq![
            Action::UpdateAll,
            if has_update.schema { Action::UpdateSchema } else { Action::ForceUpdateSchema },
            if !grammar_installed {
                Action::InstallGrammar
            } else if has_update.grammar {
                Action::UpdateGrammar
            } else {
                Action::ForceUpdateGrammar
            },
            Action::SwitchSchema,
            Action::Exit,
        ],
{
    let schema_action = if has_update.schema {
        Action::UpdateSchema
    } else {
        Action::ForceUpdateSchema
    };
    let grammar_action = if !grammar_installed {
        Action::InstallGrammar
    } else if has_update.grammar {
        Action::UpdateGrammar
    } else {
        Action::ForceUpdateGrammar
    };
    vec![Action::UpdateAll, schema_action, grammar_action, Action::SwitchSchema, Action::Exit]
}

/// How the installed schema is chosen among those detected.
#[derive(Clone, Copy, Debug, PartialEq, Eq, Structural)]
pub enum InstalledChoice {
    /// None is installed.
    Nothing,
    /// Exactly one is installed: that one.
    Only,
    /// Several are installed: the user picks one.
    Ask,
}

/// How to choose among `count` detected schemas.
pub fn installed_choice(count: usize) -> (r: InstalledChoice)
    ensures
        r == (if count == 0 {
            InstalledChoice::Nothing
        } else if count == 1 {
            InstalledChoice::Only
        } else {
            InstalledChoice::Ask
        }),
{
    if count == 0 {
        InstalledChoice::Nothing
    } else if count == 1 {
        InstalledChoice::Only
    } else {
        InstalledChoice::Ask
    }
}

/// What an action will do.
#[derive(Clone, Copy, Debug, PartialEq, Eq, Structural)]
pub struct Plan {
    pub install_schema: bool,
    pub apply_config: bool,
    pub install_grammar: bool,
}

/// What "update everything" does: install what has an update; `None` when
/// nothing has one.
pub fn update_all_plan(has_update: HasUpdate) -> (r: Option<Plan>)
    ensures
        r is None <==> !has_update.schema && !has_update.grammar,
        r matches Some(p) ==> p == (Plan {
            install_schema: has_update.schema,
            apply_config: false,
            install_grammar: has_update.grammar,
        }),
{
    if !has_update.schema && !has_update.grammar {
        None
    } else {
        Some(Plan { install_schema: has_update.schema, apply_config: false, install_grammar: has_update.grammar })
    }
}

/// What switching to `schema` with `custom` does, given the installed edition
/// and configuration: install the edition when it differs, apply the
/// configuration when it differs; `None` when neither differs.
pub fn switch_plan(installed: Option<(Schema, Custom)>, schema: Schema, custom: Custom) -> (r: Option<Plan>)
    ensures
        ({
            let install_schema = match installed { Some((s, _)) => s != schema, None => true };
            let apply_config = match installed { Some((_, c)) => c != custom, None => true };
            &&& r is None <==> !install_schema && !apply_config
            &&& r matches Some(p) ==> p == (Plan { install_schema, apply_config, install_grammar: false })
        }),
{
    let install_schema = match installed {
        Some((s, _)) => s != schema,
        None => true,
    };
    let apply_config = match installed {
        Some((_, c)) => c != custom,
        None => true,
    };
    if !install_schema && !apply_config {
        None
    } else {
        Some(Plan { install_schema, apply_config, install_grammar: false })
    }
}

/// How the grammar model's update is checked.
#[derive(Clone, Copy, Debug, PartialEq, Eq, Structural)]
pub enum GrammarCheck {
    /// No model is installed: no update.
    NotInstalled,
    /// Ask the server whether the model changed.
    AskServer,
    /// The latest model is not known: no update.
    Unknown,
}

/// How to check the grammar model's update.
pub fn grammar_check(installed: bool, latest_known: bool) -> (r: GrammarCheck)
    ensures
        r == (if !installed {
            GrammarCheck::NotInstalled
        } else if latest_known {
            GrammarCheck::AskServer
        } else {
            GrammarCheck::Unknown
        }),
{
    if !installed {
        GrammarCheck::NotInstalled
    } else if latest_known {
        GrammarCheck::AskServer
    } else {
        GrammarCheck::Unknown
    }
}

/// Whether a question is skipped, answered by a known value, or asked with a
/// preselected value.
#[derive(Clone, Copy, Debug, PartialEq, Eq, Structural)]
pub enum Choice<T> {
    Skip,
    Use(T),
    Ask(Option<T>),
}

/// Which options a prompt must settle.
#[derive(Clone, Copy, Debug, PartialEq, Eq, Structural)]
pub struct Required {
    pub schema: bool,
    pub config: bool,
    pub with_grammar: bool,
}

/// The edition question: skipped unless required; a known edition is used
/// unless the user is always asked.
pub fn schema_choice(required: Required, default: Option<Schema>, always_ask: bool) -> (r: Choice<Schema>)
    ensures
        r == (if !required.schema {
            Choice::Skip
        } else {
            match default {
                Some(s) => if always_ask { Choice::Ask(Some(s)) } else { Choice::Use(s) },
                None => Choice::Ask(None),
            }
        }),
{
    if !required.schema {
        Choice::Skip
    } else {
        match default {
            Some(s) => if always_ask {
                Choice::Ask(Some(s))
            } else {
                Choice::Use(s)
            },
            None => Choice::Ask(None),
        }
    }
}

/// The layout question: asked, with the known layout preselected, whenever
/// the configuration is required.
pub fn pinyin_choice(required: Required, default: Option<Pinyin>) -> (r: Choice<Pinyin>)
    ensures
        r == (if required.config { Choice::Ask(default) } else { Choice::Skip }),
{
    if required.config {
        Choice::Ask(default)
    } else {
        Choice::Skip
    }
}

/// Whether the package question is asked: for a Pro edition without one.
pub fn needs_aux_code(schema: Option<Schema>) -> (r: bool)
    ensures
        r == (schema == Some(Schema::Pro(None))),
{
    match schema {
        Some(Schema::Pro(None)) => true,
        _ => false,
    }
}

/// The mode question: only for a Pro edition; a known mode is used unless the
/// user is always asked.
pub fn aux_mode_choice(schema: Option<Schema>, default: Option<AuxMode>, always_ask: bool) -> (r: Choice<AuxMode>)
    ensures
        r == (match schema {
            Some(Schema::Pro(_)) => match default {
                Some(m) => if always_ask { Choice::Ask(Some(m)) } else { Choice::Use(m) },
                None => Choice::Ask(None),
            },
            _ => Choice::Skip,
        }),
{
    match schema {
        Some(Schema::Pro(_)) => match default {
            Some(m) => if always_ask {
                Choice::Ask(Some(m))
            } else {
                Choice::Use(m)
            },
            None => Choice::Ask(None),
        },
        _ => Choice::Skip,
    }
}

} // verus!
