//! The grammar model: where it is installed and which release asset holds it.

use vstd::prelude::*;
use std::path::PathBuf;
use crate::digest::{find_asset, first_named, Asset};

verus! {

broadcast use vstd::string::group_string_axioms;

/// The file name of the grammar model, in the Rime user directory and among
/// the release assets.
pub const GRAMMAR_NAME: &'static str = "wanxiang-lts-zh-hans.gram";

/// An installed grammar model.
pub struct InstalledGrammar {
    pub path: PathBuf,
}

/// The grammar model at `path` (the user directory joined with
/// [`GRAMMAR_NAME`]), when a file exists there.
pub fn detect(path: PathBuf, exists: bool) -> (r: Option<InstalledGrammar>)
    ensures
        r is Some <==> exists,
        r matches Some(g) ==> g.path == path,
{
    if !exists {
        return None;
    }
    Some(InstalledGrammar { path })
}

/// The latest grammar model: the asset that holds it.
pub struct LatestGrammar {
    pub asset: Asset,
}

/// Installing the latest grammar model.
pub struct Install {
    pub latest: LatestGrammar,
}

/// The grammar model among the assets of the release: the first asset named
/// [`GRAMMAR_NAME`].
pub fn latest_from_assets(assets: &Vec<Asset>) -> (r: Option<LatestGrammar>)
    ensures
        match r {
            Some(l) => first_named(assets@, GRAMMAR_NAME@) == Some(l.asset),
            None => first_named(assets@, GRAMMAR_NAME@) is None,
        },
{
    match find_asset(assets, GRAMMAR_NAME) {
        Some(asset) => Some(LatestGrammar { asset }),
        None => None,
    }
}

} // verus!
