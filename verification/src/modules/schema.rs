//! The schema package: whether an update is due, which release asset to
//! download, and what to remove after switching editions.

use vstd::prelude::*;
use vstd::string::*;
use crate::digest::{find_asset, first_named, Asset};
use crate::installed_detector::InstalledSchema;
use crate::options::{AuxCode, Schema};
use crate::text::{chars_of, slice_range, string_of};
use crate::version::{semver_greater, semver_parse, Version, VersionView};

verus! {

broadcast use vstd::string::group_string_axioms;

/// The latest release of the schema: what the installer reads of it.
pub struct LatestSchema {
    pub tag_name: String,
    pub assets: Vec<Asset>,
}

/// Installing a schema edition from the latest release; `previous` is the
/// edition installed before, when one is being replaced.
pub struct Install {
    pub schema: Schema,
    pub latest: LatestSchema,
    pub previous: Option<Schema>,
}

/// Why an update cannot be decided.
pub enum CheckError {
    /// The installed version is no semantic version; the parser's message.
    Installed(String),
    /// The release tag is no semantic version; the parser's message.
    Latest(String),
}

/// `s` without the leading characters `c`.
pub open spec fn trim_leading(s: Seq<char>, c: char) -> Seq<char>
    decreases s.len(),
{
    if s.len() > 0 && s[0] == c {
        trim_leading(s.drop_first(), c)
    } else {
        s
    }
}

/// The tag without its leading `v`s (`str::trim_start_matches('v')`).
pub fn tag_version(tag: &str) -> (r: String)
    ensures
        r@ == trim_leading(tag@, 'v'),
{
    let chars = chars_of(tag);
    let mut i: usize = 0;
    assert(chars@.skip(0) =~= chars@);
    while i < chars.len() && chars[i] == 'v'
        invariant
            i <= chars@.len(),
            trim_leading(tag@, 'v') == trim_leading(chars@.skip(i as int), 'v'),
            chars@ == tag@,
        decreases chars.len() - i,
    {
        assert(chars@.skip(i as int).drop_first() =~= chars@.skip(i + 1));
        i = i + 1;
    }
    let rest = slice_range(&chars, i, chars.len());
    assert(rest@ =~= chars@.skip(i as int));
    string_of(&rest)
}

/// Whether the release is newer than the installed schema: `Ok(true)` exactly
/// when both versions parse and the release's version (its tag without leading
/// `v`s) is greater in SemVer precedence.
pub fn check_update(installed: &InstalledSchema, latest: &LatestSchema) -> (r: Result<bool, CheckError>)
    ensures
        match r {
            Ok(b) => semver_parse(installed.version@) matches Ok(iv) && semver_parse(trim_leading(latest.tag_name@, 'v')) matches Ok(lv)
                && b == semver_greater(lv, iv)
                && (lv.triple() != iv.triple() ==> b == lv.triple_greater(iv))
                && (lv == iv ==> !b),
            Err(CheckError::Installed(m)) => semver_parse(installed.version@) == Err::<VersionView, Seq<char>>(m@),
            Err(CheckError::Latest(m)) => semver_parse(installed.version@) is Ok
                && semver_parse(trim_leading(latest.tag_name@, 'v')) == Err::<VersionView, Seq<char>>(m@),
        },
{
    let installed_version = match Version::parse(installed.version.as_str()) {
        Ok(v) => v,
        Err(m) => {
            return Err(CheckError::Installed(m));
        },
    };
    let tag = tag_version(latest.tag_name.as_str());
    let latest_version = match Version::parse(tag.as_str()) {
        Ok(v) => v,
        Err(m) => {
            return Err(CheckError::Latest(m));
        },
    };
    Ok(latest_version.greater_than(&installed_version))
}

/// The name of the release asset that packages `schema`.
pub open spec fn spec_asset_name(schema: Schema) -> Seq<char> {
    match schema {
        Schema::Base => "rime-wanxiang-base.zip"@,
        Schema::Pro(Some(aux)) => "rime-wanxiang-"@ + aux.spec_code() + "-fuzhu.zip"@,
        Schema::Pro(None) => Seq::empty(),
    }
}

/// The name of the release asset that packages `schema`; the Pro edition
/// needs its package chosen.
pub fn asset_name(schema: Schema) -> (r: String)
    requires
        schema != Schema::Pro(None),
    ensures
        r@ == spec_asset_name(schema),
{
    match schema {
        Schema::Base => String::from_str("rime-wanxiang-base.zip"),
        Schema::Pro(Some(aux)) => {
            let mut name = String::from_str("rime-wanxiang-");
            name.append(aux.code());
            name.append("-fuzhu.zip");
            name
        },
        Schema::Pro(None) => String::new(),
    }
}

/// Two editions with chosen packages that share an asset name are the same:
/// each edition has an archive of its own.
pub proof fn lemma_asset_name_injective(a: Schema, b: Schema)
    requires
        a != Schema::Pro(None),
        b != Schema::Pro(None),
        spec_asset_name(a) == spec_asset_name(b),
    ensures
        a == b,
{
    reveal_strlit("rime-wanxiang-base.zip");
    reveal_strlit("rime-wanxiang-");
    reveal_strlit("-fuzhu.zip");
    let (x, y) = (spec_asset_name(a), spec_asset_name(b));
    let pre = "rime-wanxiang-"@;
    let post = "-fuzhu.zip"@;
    match (a, b) {
        (Schema::Pro(Some(p)), Schema::Pro(Some(q))) => {
            assert(x.subrange(pre.len() as int, x.len() - post.len()) =~= p.spec_code());
            assert(y.subrange(pre.len() as int, y.len() - post.len()) =~= q.spec_code());
            crate::options::lemma_aux_code_injective(p, q);
        },
        (Schema::Base, Schema::Pro(Some(q))) => {
            assert(x[14] == 'b');
            assert(y[14] == q.spec_code()[0]);
            reveal_strlit("zrm");
            reveal_strlit("flypy");
            reveal_strlit("moqi");
            reveal_strlit("hanxin");
            reveal_strlit("wubi");
            reveal_strlit("tiger");
            reveal_strlit("shouyou");
            reveal_strlit("shyplus");
            reveal_strlit("wx");
            match q {
                AuxCode::Zrm => {},
                AuxCode::Flypy => {},
                AuxCode::Moqi => {},
                AuxCode::Hanxin => {},
                AuxCode::Wubi => {},
                AuxCode::Tiger => {},
                AuxCode::Shouyou => {},
                AuxCode::Shyplus => {},
                AuxCode::Wx => {},
            }
        },
        (Schema::Pro(Some(p)), Schema::Base) => {
            assert(y[14] == 'b');
            assert(x[14] == p.spec_code()[0]);
            reveal_strlit("zrm");
            reveal_strlit("flypy");
            reveal_strlit("moqi");
            reveal_strlit("hanxin");
            reveal_strlit("wubi");
            reveal_strlit("tiger");
            reveal_strlit("shouyou");
            reveal_strlit("shyplus");
            reveal_strlit("wx");
            match p {
                AuxCode::Zrm => {},
                AuxCode::Flypy => {},
                AuxCode::Moqi => {},
                AuxCode::Hanxin => {},
                AuxCode::Wubi => {},
                AuxCode::Tiger => {},
                AuxCode::Shouyou => {},
                AuxCode::Shyplus => {},
                AuxCode::Wx => {},
            }
        },
        _ => {},
    }
}

/// The release asset that packages `schema`: the first asset with its name.
/// The Pro edition needs its package chosen unless the release has no assets.
pub fn asset(schema: Schema, latest: &LatestSchema) -> (r: Option<Asset>)
    requires
        schema == Schema::Pro(None) ==> latest.assets@.len() == 0,
    ensures
        latest.assets@.len() > 0 ==> r == first_named(latest.assets@, spec_asset_name(schema)),
        latest.assets@.len() == 0 ==> r is None,
{
    if latest.assets.len() == 0 {
        return None;
    }
    let name = asset_name(schema);
    find_asset(&latest.assets, name.as_str())
}

/// Whether switching from `old` to `new` leaves the old edition's schema file
/// behind, to be removed: when the editions differ, whatever their packages.
pub fn needs_cleanup(old: Schema, new: Schema) -> (r: bool)
    ensures
        r == !((old is Base && new is Base) || (old is Pro && new is Pro)),
{
    match (old, new) {
        (Schema::Base, Schema::Base) => false,
        (Schema::Pro(_), Schema::Pro(_)) => false,
        _ => true,
    }
}

/// The file name `<id>.schema.yaml` of an edition's schema file.
pub fn schema_file_name(schema: Schema) -> (r: String)
    ensures
        r@ == schema.spec_schema_id() + ".schema.yaml"@,
{
    let mut name = String::from_str(schema.schema_id());
    name.append(".schema.yaml");
    name
}

} // verus!
