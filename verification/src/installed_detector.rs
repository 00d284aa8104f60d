//! What is installed in the Rime user directory: the schema edition with its
//! version and configuration, and the grammar model.

use vstd::prelude::*;
use std::path::PathBuf;
use crate::modules::custom::{
    custom_of_names, custom_from_names, names_of, reference_names, schema_path, string_values,
    strings_of,
};
use crate::options::{AuxCode, AuxMode, Pinyin, Schema};
use crate::pattern::{capture, regex_capture};
use crate::yaml::{fields, joined, key_path, str_value, Document, YamlError, YamlNode};

verus! {

/// A path of the file system, carried opaquely.
#[verifier::external_type_specification]
#[verifier::external_body]
pub struct ExPathBuf(PathBuf);

/// The pattern whose first group is the package code that `lua/meta.lua` assigns.
pub const AUX_CODE_PATTERN: &'static str = "(?m)^\\s*M\\.AUX_CODE\\s*=\\s*[\"']([^\"']+)[\"']";

/// An installed schema edition.
#[derive(Clone)]
pub struct InstalledSchema {
    /// The edition; for the Pro edition, the package that `lua/meta.lua` names, if any.
    pub scheme: Schema,
    /// The `schema.version` field of the schema file.
    pub version: String,
    pub pinyin: Option<Pinyin>,
    pub aux_mode: Option<AuxMode>,
}

/// An installed grammar model.
pub struct InstalledGrammar {
    pub path: PathBuf,
}

/// Why an installed schema cannot be described.
pub enum DetectError {
    /// The schema file has no version; the path of the field.
    MissingVersion(String),
    /// The version field is no string.
    VersionNotString,
}

/// The path of the version field of a schema file.
pub open spec fn version_path() -> Seq<&'static str> {
    seq!["schema", "version"]
}

/// The path under which a custom file lists the algebra patches that detection reads.
pub open spec fn detection_custom_path() -> Seq<&'static str> {
    seq!["patch", "speller/algebra", "__patch"]
}

/// The algebra patches that detection reads: the custom file's, or, where it
/// lists none, the schema file's.
pub open spec fn detection_patches(schema: YamlNode, custom: Option<YamlNode>) -> Seq<Seq<char>> {
    let from_custom = match custom {
        Some(c) => string_values(fields(c, key_path(detection_custom_path()))),
        None => Seq::empty(),
    };
    if from_custom.len() > 0 {
        from_custom
    } else {
        string_values(fields(schema, key_path(schema_path())))
    }
}

/// The package that `meta` assigns to `M.AUX_CODE`, when there is a meta file
/// and its code names a package.
pub open spec fn meta_aux_code(meta: Option<Seq<char>>) -> Option<AuxCode> {
    match meta {
        None => None,
        Some(m) => match regex_capture(AUX_CODE_PATTERN@, m, 1) {
            None => None,
            Some(code) => if exists|a: AuxCode| a.spec_code() == code {
                Some(choose|a: AuxCode| a.spec_code() == code)
            } else {
                None
            },
        },
    }
}

impl InstalledSchema {
    /// Describes the installed `scheme` from its schema document, its custom
    /// document if there is one, and the text of `lua/meta.lua` if it could be
    /// read: the version is the schema's `schema.version`, the configuration
    /// comes from the algebra references, and a Pro edition carries the
    /// package that `meta.lua` assigns.
    pub fn from_documents(scheme: Schema, schema: &Document, custom: Option<&Document>, meta_lua: Option<&str>) -> (r: Result<InstalledSchema, DetectError>)
        ensures
            ({
                let found = fields(schema.root, key_path(version_path()));
                let custom_root = match custom { Some(d) => Some(d.root), None => None };
                let config = custom_of_names(reference_names(detection_patches(schema.root, custom_root)));
                match r {
                    Ok(s) => found.len() > 0 && str_value(found[0]) == Some(s.version@)
                        && s.pinyin == config.pinyin && s.aux_mode == config.aux_mode
                        && s.scheme == match scheme {
                            Schema::Base => Schema::Base,
                            Schema::Pro(_) => Schema::Pro(meta_aux_code(match meta_lua { Some(m) => Some(m@), None => None })),
                        },
                    Err(DetectError::MissingVersion(p)) => found.len() == 0 && p@ == joined(version_path()),
                    Err(DetectError::VersionNotString) => found.len() > 0 && str_value(found[0]) is None,
                }
            }),
    {
        let vpath: &[&str] = &["schema", "version"];
        assert(vpath@ =~= version_path());
        let version = match schema.required(vpath) {
            Ok(v) => match v.as_str() {
                Some(s) => String::from_str(s),
                None => {
                    return Err(DetectError::VersionNotString);
                },
            },
            Err(YamlError::MissingField(p)) => {
                return Err(DetectError::MissingVersion(p));
            },
            Err(_) => {
                return Err(DetectError::VersionNotString);
            },
        };

        let cpath: &[&str] = &["patch", "speller/algebra", "__patch"];
        assert(cpath@ =~= detection_custom_path());
        let mut patches: Vec<String> = match custom {
            Some(d) => strings_of(&d.values(cpath)),
            None => Vec::new(),
        };
        if patches.len() == 0 {
            let spath: &[&str] = &["speller", "algebra", "__patch"];
            assert(spath@ =~= schema_path());
            patches = strings_of(&schema.values(spath));
        }
        let config = custom_from_names(&names_of(&patches));

        let scheme = match scheme {
            Schema::Base => Schema::Base,
            Schema::Pro(_) => {
                let aux = match meta_lua {
                    None => None,
                    Some(meta) => match capture(AUX_CODE_PATTERN, meta, 1) {
                        None => None,
                        Some(code) => {
                            let code_chars = crate::text::chars_of(code.as_str());
                            let found = AuxCode::from_code(&code_chars);
                            proof {
                                match found {
                                    Some(a) => {
                                        let c = choose|b: AuxCode| b.spec_code() == code@;
                                        crate::options::lemma_aux_code_injective(a, c);
                                    },
                                    None => {},
                                }
                            }
                            found
                        },
                    },
                };
                Schema::Pro(aux)
            },
        };
        Ok(InstalledSchema { scheme, version, pinyin: config.pinyin, aux_mode: config.aux_mode })
    }
}

impl InstalledGrammar {
    /// The grammar model at `path`, when a file exists there.
    pub fn detect(path: PathBuf, exists: bool) -> (r: Option<InstalledGrammar>)
        ensures
            r is Some <==> exists,
            r matches Some(g) ==> g.path == path,
    {
        if !exists {
            return None;
        }
        Some(InstalledGrammar { path })
    }
}


/// Detection reads the custom file's algebra patches where it lists any, and
/// otherwise, with no custom file or one that lists none, the schema file's
/// `speller/algebra/__patch`.
pub proof fn lemma_detection_patches(schema: YamlNode, custom: Option<YamlNode>)
    ensures
        detection_patches(schema, None) == string_values(fields(schema, key_path(seq!["speller", "algebra", "__patch"]))),
        custom matches Some(c) ==> (string_values(fields(c, key_path(seq!["patch", "speller/algebra", "__patch"]))).len() == 0
            ==> detection_patches(schema, custom) == detection_patches(schema, None)),
        custom matches Some(c) ==> (string_values(fields(c, key_path(seq!["patch", "speller/algebra", "__patch"]))).len() > 0
            ==> detection_patches(schema, custom) == string_values(fields(c, key_path(seq!["patch", "speller/algebra", "__patch"])))),
{
}

} // verus!
