//! The installer's own settings, kept in `installer/config.yaml`.

use vstd::prelude::*;
use vstd::string::*;
use crate::yaml::{bool_value, fields, joined, key_path, Document, YamlError};

verus! {

broadcast use vstd::string::group_string_axioms;

/// The installer's settings.
#[derive(Clone, Copy, Debug, PartialEq, Eq, Structural)]
pub struct Config {
    /// Whether pre-releases of the schema are offered.
    pub prerelease: bool,
}

impl Default for Config {
    /// The settings when no file records them: releases only.
    fn default() -> (r: Config)
        ensures
            r == (Config { prerelease: false }),
    {
        Config { prerelease: false }
    }
}

/// Why the settings file cannot be used.
pub enum ConfigError {
    /// The file has no `prerelease` field; the path of the field.
    MissingField(String),
    /// The `prerelease` field is no boolean.
    NotBool,
}

/// The path of the `prerelease` field.
pub open spec fn prerelease_path() -> Seq<&'static str> {
    seq!["prerelease"]
}

impl Config {
    /// The settings that `document` records; the defaults when there is no
    /// settings file (`None`).
    pub fn load(document: Option<&Document>) -> (r: Result<Config, ConfigError>)
        ensures
            document is None ==> r == Ok::<Config, ConfigError>(Config { prerelease: false }),
            document matches Some(d) ==> {
                let found = fields(d.root, key_path(prerelease_path()));
                match r {
                    Ok(c) => found.len() > 0 && bool_value(found[0]) == Some(c.prerelease),
                    Err(ConfigError::MissingField(p)) => found.len() == 0 && p@ == joined(prerelease_path()),
                    Err(ConfigError::NotBool) => found.len() > 0 && bool_value(found[0]) is None,
                }
            },
    {
        match document {
            None => Ok(Config::default()),
            Some(d) => {
                let path: &[&str] = &["prerelease"];
                assert(path@ =~= prerelease_path());
                match d.required(path) {
                    Ok(v) => match v.as_bool() {
                        Some(b) => Ok(Config { prerelease: b }),
                        None => Err(ConfigError::NotBool),
                    },
                    Err(YamlError::MissingField(p)) => Err(ConfigError::MissingField(p)),
                    Err(_) => Err(ConfigError::NotBool),
                }
            },
        }
    }

    /// The text of the settings file that records these settings.
    pub fn to_yaml(&self) -> (r: String)
        ensures
            r@ == "prerelease: "@ + (if self.prerelease { "true"@ } else { "false"@ }) + "\n"@,
    {
        let mut text = String::from_str("prerelease: ");
        if self.prerelease {
            text.append("true");
        } else {
            text.append("false");
        }
        text.append("\n");
        text
    }
}

} // verus!
