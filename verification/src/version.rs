//! Semantic versions, parsed and ordered by the `semver` crate.

use vstd::prelude::*;

verus! {

/// A semantic version: what the installer reads of a `semver::Version`.
pub struct Version {
    pub major: u64,
    pub minor: u64,
    pub patch: u64,
    /// The pre-release identifiers, empty for a release.
    pub pre: String,
    /// The build metadata, empty when there is none.
    pub build: String,
}

/// The mathematical value of a [`Version`].
pub struct VersionView {
    pub major: u64,
    pub minor: u64,
    pub patch: u64,
    pub pre: Seq<char>,
    pub build: Seq<char>,
}

impl View for Version {
    type V = VersionView;

    open spec fn view(&self) -> VersionView {
        VersionView {
            major: self.major,
            minor: self.minor,
            patch: self.patch,
            pre: self.pre@,
            build: self.build@,
        }
    }
}

impl VersionView {
    /// The release that the version belongs to.
    pub open spec fn triple(self) -> (u64, u64, u64) {
        (self.major, self.minor, self.patch)
    }

    /// Whether the version is a release rather than a pre-release.
    pub open spec fn is_release(self) -> bool {
        self.pre.len() == 0
    }

    /// Whether the release numbers of `self` come after those of `other`:
    /// major, then minor, then patch.
    pub open spec fn triple_greater(self, other: VersionView) -> bool {
        self.major > other.major || (self.major == other.major && (self.minor > other.minor || (
        self.minor == other.minor && self.patch > other.patch)))
    }
}

/// What `semver::Version::parse` makes of `text`: the version, or the text of
/// the parser's error.
pub uninterp spec fn semver_parse(text: Seq<char>) -> Result<VersionView, Seq<char>>;

/// Whether `semver` orders `a` after `b` (`a > b` on `semver::Version`).
pub uninterp spec fn semver_greater(a: VersionView, b: VersionView) -> bool;

/// `semver::Version::parse`: the version that `text` denotes, or the text of
/// the parser's error. The contract names the result and states nothing of
/// the grammar.
#[verifier::external_body]
fn parse_semver(text: &str) -> (r: Result<Version, String>)
    ensures
        match r {
            Ok(v) => semver_parse(text@) == Ok::<VersionView, Seq<char>>(v@),
            Err(m) => semver_parse(text@) == Err::<VersionView, Seq<char>>(m@),
        },
{
    semver::Version::parse(text).map(|v| Version {
        major: v.major,
        minor: v.minor,
        patch: v.patch,
        pre: v.pre.as_str().to_string(),
        build: v.build.as_str().to_string(),
    }).map_err(|e| e.to_string())
}

/// `>` on `semver::Version` for the versions with these fields. The contract
/// states what the crate's derived order shows: the release triples are
/// compared first, and no version is greater than itself. How pre-release and
/// build identifiers compare is left to the name; identifiers that `semver`
/// rejects compare as empty.
#[verifier::external_body]
fn semver_gt(a: &Version, b: &Version) -> (r: bool)
    ensures
        r == semver_greater(a@, b@),
        a@.triple() != b@.triple() ==> r == a@.triple_greater(b@),
        a@ == b@ ==> !r,
{
    let conv = |v: &Version| semver::Version {
        major: v.major,
        minor: v.minor,
        patch: v.patch,
        pre: semver::Prerelease::new(&v.pre).unwrap_or_default(),
        build: semver::BuildMetadata::new(&v.build).unwrap_or_default(),
    };
    conv(a) > conv(b)
}

impl Version {
    /// Parses a semantic version; the error is the parser's message.
    pub fn parse(text: &str) -> (r: Result<Version, String>)
        ensures
            match r {
                Ok(v) => semver_parse(text@) == Ok::<VersionView, Seq<char>>(v@),
                Err(m) => semver_parse(text@) == Err::<VersionView, Seq<char>>(m@),
            },
    {
        parse_semver(text)
    }

    /// Whether `self` comes after `other` in SemVer precedence: versions of
    /// different release numbers compare by major, minor and patch in turn,
    /// and no version comes after itself.
    pub fn greater_than(&self, other: &Version) -> (r: bool)
        ensures
            r == semver_greater(self@, other@),
            self@.triple() != other@.triple() ==> r == self@.triple_greater(other@),
            self@ == other@ ==> !r,
    {
        semver_gt(self, other)
    }

    /// Whether the version is a release rather than a pre-release.
    pub fn is_release(&self) -> (r: bool)
        ensures
            r == self@.is_release(),
    {
        self.pre.as_str().is_empty()
    }
}

} // verus!
