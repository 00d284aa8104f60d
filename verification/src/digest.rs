//! Release assets and the check of a download against the SHA-256 digest
//! that the release publishes.

use vstd::prelude::*;
use vstd::string::*;
use sha2::Digest;
use crate::text::{chars_of, chars_equal, has_prefix, slice_range, starts_with, string_of};

verus! {

broadcast use vstd::string::group_string_axioms;

/// What the installer reads of a release asset.
#[derive(Clone, Debug)]
pub struct Asset {
    pub name: String,
    pub browser_download_url: String,
    /// The digest that the release publishes, such as `sha256:<hex>`.
    pub digest: Option<String>,
}

impl Asset {
    /// A copy of the asset.
    pub fn copy(&self) -> (r: Asset)
        ensures
            r == *self,
    {
        Asset {
            name: self.name.clone(),
            browser_download_url: self.browser_download_url.clone(),
            digest: match &self.digest {
                Some(d) => Some(d.clone()),
                None => None,
            },
        }
    }
}

/// The first asset of `assets` named `name`.
pub open spec fn first_named(assets: Seq<Asset>, name: Seq<char>) -> Option<Asset>
    decreases assets.len(),
{
    if assets.len() == 0 {
        None
    } else if assets[0].name@ == name {
        Some(assets[0])
    } else {
        first_named(assets.drop_first(), name)
    }
}

/// A copy of the first asset of `assets` named `name`.
pub fn find_asset(assets: &Vec<Asset>, name: &str) -> (r: Option<Asset>)
    ensures
        r == first_named(assets@, name@),
{
    let wanted = String::from_str(name);
    let mut i: usize = 0;
    assert(assets@.skip(0) =~= assets@);
    while i < assets.len()
        invariant
            i <= assets@.len(),
            wanted@ == name@,
            first_named(assets@, name@) == first_named(assets@.skip(i as int), name@),
        decreases assets.len() - i,
    {
        proof {
            let t = assets@.skip(i as int);
            assert(t[0] == assets@[i as int]);
            assert(t.drop_first() =~= assets@.skip(i + 1));
        }
        if assets[i].name.eq(&wanted) {
            return Some(assets[i].copy());
        }
        i = i + 1;
    }
    None
}

/// Why a download does not pass the digest check.
pub enum DigestError {
    /// The release publishes no digest for the asset.
    Missing,
    /// The published digest does not start with `sha256:`.
    BadFormat,
    /// The digests differ: the download's and the published one.
    Mismatch { name: String, local: String, remote: String },
}

/// The SHA-256 digest of `data` (`sha2::Sha256::digest`).
pub uninterp spec fn sha256(data: Seq<u8>) -> Seq<u8>;

/// `sha2::Sha256::digest(data)`: the contract names the result and states its
/// length, 32 bytes, as the crate's output size gives it.
#[verifier::external_body]
fn sha256_digest(data: &[u8]) -> (r: Vec<u8>)
    ensures
        r@ == sha256(data@),
        r@.len() == 32,
{
    sha2::Sha256::digest(data).to_vec()
}

/// The lowercase hexadecimal digit for `d < 16`: `'0'` is 48, `'a'` is 97.
pub open spec fn hex_digit(d: u8) -> char {
    if d < 10 {
        (48 + d) as u8 as char
    } else {
        (87 + d) as u8 as char
    }
}

/// The lowercase hexadecimal text of `bytes`, two digits per byte, high digit first.
pub open spec fn hex(bytes: Seq<u8>) -> Seq<char>
    decreases bytes.len(),
{
    if bytes.len() == 0 {
        Seq::empty()
    } else {
        hex(bytes.drop_last()) + seq![hex_digit(bytes.last() / 16), hex_digit(bytes.last() % 16)]
    }
}

proof fn lemma_hex_len(bytes: Seq<u8>)
    ensures
        hex(bytes).len() == 2 * bytes.len(),
    decreases bytes.len(),
{
    if bytes.len() > 0 {
        lemma_hex_len(bytes.drop_last());
    }
}

fn digit(d: u8) -> (c: char)
    requires
        d < 16,
    ensures
        c == hex_digit(d),
{
    if d < 10 {
        (48u8 + d) as char
    } else {
        (87u8 + d) as char
    }
}

/// The lowercase hexadecimal text of `bytes` (`{:x}`).
pub fn to_hex(bytes: &[u8]) -> (r: String)
    ensures
        r@ == hex(bytes@),
        r@.len() == 2 * bytes@.len(),
{
    let mut out: Vec<char> = Vec::new();
    let mut i: usize = 0;
    while i < bytes.len()
        invariant
            i <= bytes@.len(),
            out@ == hex(bytes@.take(i as int)),
        decreases bytes.len() - i,
    {
        let b = bytes[i];
        out.push(digit(b / 16));
        out.push(digit(b % 16));
        proof {
            let t = bytes@.take(i + 1);
            assert(t.drop_last() =~= bytes@.take(i as int));
            assert(t.last() == b);
        }
        i = i + 1;
        assert(out@ =~= hex(bytes@.take(i as int)));
    }
    assert(bytes@.take(bytes@.len() as int) =~= bytes@);
    proof {
        lemma_hex_len(bytes@);
    }
    string_of(&out)
}

/// The SHA-256 digest of `data` as lowercase hexadecimal text.
pub fn file_digest(data: &[u8]) -> (r: String)
    ensures
        r@ == hex(sha256(data@)),
        r@.len() == 64,
{
    to_hex(&sha256_digest(data))
}

/// The digest that the release publishes for `asset`, without its `sha256:` prefix.
pub open spec fn published_digest(asset: Asset) -> Result<Seq<char>, ()> {
    match asset.digest {
        None => Err(()),
        Some(d) => if has_prefix(d@, "sha256:"@) {
            Ok(d@.skip("sha256:"@.len() as int))
        } else {
            Err(())
        },
    }
}

/// The hexadecimal digest that the release publishes for `asset`.
pub fn asset_digest(asset: &Asset) -> (r: Result<String, DigestError>)
    ensures
        match r {
            Ok(d) => asset.digest is Some && published_digest(*asset) == Ok::<Seq<char>, ()>(d@),
            Err(DigestError::Missing) => asset.digest is None,
            Err(DigestError::BadFormat) => asset.digest is Some && published_digest(*asset) is Err,
            Err(DigestError::Mismatch { .. }) => false,
        },
{
    match &asset.digest {
        None => Err(DigestError::Missing),
        Some(d) => {
            let text = chars_of(d.as_str());
            let prefix = chars_of("sha256:");
            if starts_with(&text, &prefix) {
                let rest = slice_range(&text, prefix.len(), text.len());
                assert(rest@ =~= d@.skip("sha256:"@.len() as int));
                Ok(string_of(&rest))
            } else {
                Err(DigestError::BadFormat)
            }
        },
    }
}

/// Checks the downloaded `data` of `asset` against the digest that the
/// release publishes: `Ok` exactly when that digest is present, has the
/// `sha256:` prefix, and names the SHA-256 digest of `data`.
pub fn verify(data: &[u8], asset: &Asset) -> (r: Result<(), DigestError>)
    ensures
        r is Ok <==> published_digest(*asset) == Ok::<Seq<char>, ()>(hex(sha256(data@))),
        r matches Err(DigestError::Missing) <==> asset.digest is None,
        r matches Err(DigestError::BadFormat) <==> (asset.digest is Some && published_digest(*asset) is Err),
        r matches Err(DigestError::Mismatch { name, local, remote }) ==> name@ == asset.name@
            && local@ == hex(sha256(data@)) && published_digest(*asset) == Ok::<Seq<char>, ()>(remote@)
            && remote@ != local@,
{
    let local = file_digest(data);
    let remote = asset_digest(asset)?;
    if !chars_equal(&chars_of(local.as_str()), &chars_of(remote.as_str())) {
        return Err(DigestError::Mismatch { name: asset.name.clone(), local, remote });
    }
    Ok(())
}

} // verus!
