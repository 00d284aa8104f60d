//! The breaking changes that a CHANGELOG lists between two versions.

use vstd::prelude::*;
use crate::pattern::{capture, regex_capture};
use crate::text::{
    chars_of, ends_with, has_prefix, has_suffix, lines, slice_range, split_lines, starts_with,
    string_of, trim, trimmed, views,
};
use crate::version::{semver_greater, semver_parse, Version, VersionView};

verus! {

broadcast use vstd::string::group_string_axioms;

/// The pattern whose first group is the version text of a `## ` heading.
pub const HEADING_PATTERN: &'static str = "^\\[?v?([^\\]\\s]+)";

/// Why a CHANGELOG cannot be read.
pub enum ChangelogError {
    /// A `## ` heading that does not start with a version.
    Heading(String),
    /// A heading's version text that is no semantic version, with the parser's message.
    Version { text: String, message: String },
}

/// The mathematical value of a [`ChangelogError`].
pub enum ScanError {
    Heading(Seq<char>),
    /// The version text and the parser's message.
    Version(Seq<char>, Seq<char>),
}

impl ChangelogError {
    pub open spec fn view(self) -> ScanError {
        match self {
            ChangelogError::Heading(h) => ScanError::Heading(h@),
            ChangelogError::Version { text, message } => ScanError::Version(text@, message@),
        }
    }
}

/// What the scan has gathered after some lines of the CHANGELOG.
pub struct ScanState {
    /// The sections kept so far: a version in range and its breaking-change text.
    pub changes: Seq<(VersionView, Seq<char>)>,
    /// The release triples of the released versions in range met so far.
    pub stable: Seq<(u64, u64, u64)>,
    /// The version of the current section, when it is in range.
    pub version: Option<VersionView>,
    /// Whether the current subsection is a breaking-changes one.
    pub breaking: bool,
    /// The breaking-change text of the current section.
    pub body: Seq<char>,
}

/// The state before the first line.
pub open spec fn initial_state() -> ScanState {
    ScanState {
        changes: Seq::empty(),
        stable: Seq::empty(),
        version: None,
        breaking: false,
        body: Seq::empty(),
    }
}

/// Whether `v` lies in `(installed, latest]`.
pub open spec fn in_range(v: VersionView, installed: VersionView, latest: VersionView) -> bool {
    semver_greater(v, installed) && !semver_greater(v, latest)
}

/// What SemVer precedence shows of a version in `(installed, latest]` by its
/// release numbers alone: it is not `installed` itself, its release numbers
/// are above those of `installed` where they differ, and not above those of
/// `latest`.
pub open spec fn release_in_range(v: VersionView, installed: VersionView, latest: VersionView) -> bool {
    &&& v != installed
    &&& v.triple() != installed.triple() ==> v.triple_greater(installed)
    &&& v.triple() != latest.triple() ==> latest.triple_greater(v)
}

/// The state after a `## ` line closes the current section.
pub open spec fn close_section(st: ScanState) -> ScanState {
    ScanState {
        changes: match st.version {
            Some(v) => if trim(st.body).len() > 0 {
                st.changes.push((v, trim(st.body)))
            } else {
                st.changes
            },
            None => st.changes,
        },
        stable: st.stable,
        version: None,
        breaking: false,
        body: Seq::empty(),
    }
}

/// What a `## ` heading says: no version, a version text that does not
/// parse (with the parser's message), or a version and whether it lies in
/// `(installed, latest]`.
pub enum HeadingView {
    NoVersion,
    BadVersion(Seq<char>, Seq<char>),
    Version(VersionView, bool),
}

/// What the heading text `heading` (after `## `) says for an update from
/// `installed` to `latest`.
pub open spec fn heading_of(heading: Seq<char>, installed: VersionView, latest: VersionView) -> HeadingView {
    match regex_capture(HEADING_PATTERN@, heading, 1) {
        None => HeadingView::NoVersion,
        Some(text) => match semver_parse(text) {
            Err(message) => HeadingView::BadVersion(text, message),
            Ok(v) => HeadingView::Version(v, in_range(v, installed, latest)),
        },
    }
}

/// The state after one line, where `h` is what the line says as a heading: a
/// `## ` heading closes the section and opens the next one, a `### ` heading
/// says whether breaking changes follow, and any other line is
/// breaking-change text when a section in range is open and its subsection is
/// a breaking-changes one.
pub open spec fn step_with(st: ScanState, line: Seq<char>, h: HeadingView) -> Result<ScanState, ScanError> {
    if has_prefix(line, "## "@) {
        let heading = line.skip("## "@.len() as int);
        let closed = close_section(st);
        if heading.len() == 0 {
            Ok(closed)
        } else {
            match h {
                HeadingView::NoVersion => Err(ScanError::Heading(heading)),
                HeadingView::BadVersion(text, message) => Err(ScanError::Version(text, message)),
                HeadingView::Version(v, in_range) => if in_range {
                    Ok(ScanState {
                        changes: closed.changes,
                        stable: if v.is_release() {
                            closed.stable.push(v.triple())
                        } else {
                            closed.stable
                        },
                        version: Some(v),
                        breaking: false,
                        body: Seq::empty(),
                    })
                } else {
                    Ok(closed)
                },
            }
        }
    } else if has_prefix(line, "### "@) {
        Ok(ScanState {
            breaking: has_suffix(trim(line.skip("### "@.len() as int)), "BREAKING CHANGES"@),
            ..st
        })
    } else if st.version is Some && st.breaking {
        Ok(ScanState { body: st.body + line + seq!['\n'], ..st })
    } else {
        Ok(st)
    }
}

/// The state after one line of the CHANGELOG.
pub open spec fn step(st: ScanState, line: Seq<char>, installed: VersionView, latest: VersionView) -> Result<ScanState, ScanError> {
    step_with(st, line, heading_of(line.skip("## "@.len() as int), installed, latest))
}

/// The state after the given lines, or the first error.
pub open spec fn scan(lines: Seq<Seq<char>>, installed: VersionView, latest: VersionView) -> Result<ScanState, ScanError>
    decreases lines.len(),
{
    if lines.len() == 0 {
        Ok(initial_state())
    } else {
        match scan(lines.drop_last(), installed, latest) {
            Ok(st) => step(st, lines.last(), installed, latest),
            Err(e) => Err(e),
        }
    }
}

/// Whether a kept section survives: a pre-release is dropped when its release
/// is in range too.
pub open spec fn survives(change: (VersionView, Seq<char>), stable: Seq<(u64, u64, u64)>) -> bool {
    change.0.is_release() || !stable.contains(change.0.triple())
}

/// The breaking changes of `changelog` between `installed` (excluded) and
/// `latest` (included), in the order the CHANGELOG lists them.
pub open spec fn breaking_changes_of(changelog: Seq<char>, installed: VersionView, latest: VersionView) -> Result<Seq<(VersionView, Seq<char>)>, ScanError> {
    match scan(lines(changelog).push("## "@), installed, latest) {
        Ok(st) => Ok(st.changes.filter(|c: (VersionView, Seq<char>)| survives(c, st.stable))),
        Err(e) => Err(e),
    }
}

/// The value of an optional version.
pub open spec fn opt_version_view(o: &Option<Version>) -> Option<VersionView> {
    match o {
        Some(v) => Some(v@),
        None => None,
    }
}

/// The values of the listed changes.
pub open spec fn change_views(s: Seq<(Version, String)>) -> Seq<(VersionView, Seq<char>)> {
    s.map_values(|c: (Version, String)| (c.0@, c.1@))
}

/// What holds of every state that the scan reaches.
pub open spec fn scan_invariant(st: ScanState, installed: VersionView, latest: VersionView) -> bool {
    &&& forall|i: int| 0 <= i < st.changes.len() ==> {
        let c = #[trigger] st.changes[i];
        &&& in_range(c.0, installed, latest)
        &&& c.1.len() > 0
        &&& trim(c.1) == c.1
        &&& c.0.is_release() ==> st.stable.contains(c.0.triple())
    }
    &&& st.version matches Some(v) ==> in_range(v, installed, latest) && (v.is_release()
        ==> st.stable.contains(v.triple()))
}

proof fn lemma_step_invariant(st: ScanState, line: Seq<char>, installed: VersionView, latest: VersionView)
    requires
        scan_invariant(st, installed, latest),
    ensures
        step(st, line, installed, latest) matches Ok(next) ==> scan_invariant(next, installed, latest),
{
    if has_prefix(line, "## "@) {
        let closed = close_section(st);
        if let Some(v) = st.version {
            if trim(st.body).len() > 0 {
                crate::text::lemma_trim_idempotent(st.body);
                assert(closed.changes.last() == (v, trim(st.body)));
            }
        }
        assert(scan_invariant(closed, installed, latest));
        match step(st, line, installed, latest) {
            Ok(next) => {
                if next.version is Some {
                    let v = next.version->0;
                    assert forall|i: int| 0 <= i < next.changes.len() implies {
                        let c = #[trigger] next.changes[i];
                        c.0.is_release() ==> next.stable.contains(c.0.triple())
                    } by {
                        let c = next.changes[i];
                        if c.0.is_release() {
                            let k = choose|k: int| 0 <= k < closed.stable.len() && closed.stable[k] == c.0.triple();
                            if v.is_release() {
                                assert(next.stable[k] == c.0.triple());
                            }
                        }
                    }
                    if v.is_release() {
                        assert(next.stable.last() == v.triple());
                    }
                }
            },
            Err(_) => {},
        }
    }
}

proof fn lemma_scan_invariant(lines: Seq<Seq<char>>, installed: VersionView, latest: VersionView)
    ensures
        scan(lines, installed, latest) matches Ok(st) ==> scan_invariant(st, installed, latest),
    decreases lines.len(),
{
    if lines.len() > 0 {
        lemma_scan_invariant(lines.drop_last(), installed, latest);
        if let Ok(st) = scan(lines.drop_last(), installed, latest) {
            lemma_step_invariant(st, lines.last(), installed, latest);
        }
    }
}

/// Whether every version that the state holds lies in `(installed, latest]` by
/// its release numbers (see [`release_in_range`]).
pub open spec fn ranged(st: ScanState, installed: VersionView, latest: VersionView) -> bool {
    &&& forall|i: int| 0 <= i < st.changes.len() ==> release_in_range((#[trigger] st.changes[i]).0, installed, latest)
    &&& st.version matches Some(v) ==> release_in_range(v, installed, latest)
}

/// Whether a heading's version, where it is in range, lies in
/// `(installed, latest]` by its release numbers.
pub open spec fn heading_ranged(h: HeadingView, installed: VersionView, latest: VersionView) -> bool {
    h matches HeadingView::Version(v, true) ==> release_in_range(v, installed, latest)
}

proof fn lemma_step_ranged(st: ScanState, line: Seq<char>, h: HeadingView, installed: VersionView, latest: VersionView)
    requires
        ranged(st, installed, latest),
        heading_ranged(h, installed, latest),
    ensures
        step_with(st, line, h) matches Ok(next) ==> ranged(next, installed, latest),
{
    let closed = close_section(st);
    assert(ranged(closed, installed, latest)) by {
        if let Some(v) = st.version {
            if trim(st.body).len() > 0 {
                assert forall|i: int| 0 <= i < closed.changes.len() implies release_in_range((#[trigger] closed.changes[i]).0, installed, latest) by {
                    if i < st.changes.len() {
                        assert(closed.changes[i] == st.changes[i]);
                    }
                }
            }
        }
    }
}

/// What a `## ` heading says, as read by [`read_heading`].
pub enum Heading {
    /// The heading does not start with a version.
    NoVersion,
    /// The version text does not parse; the parser's message.
    BadVersion { text: String, message: String },
    /// The version, and whether it lies in `(installed, latest]`.
    Version { version: Version, in_range: bool },
}

impl View for Heading {
    type V = HeadingView;

    open spec fn view(&self) -> HeadingView {
        match self {
            Heading::NoVersion => HeadingView::NoVersion,
            Heading::BadVersion { text, message } => HeadingView::BadVersion(text@, message@),
            Heading::Version { version, in_range } => HeadingView::Version(version@, *in_range),
        }
    }
}

/// What an optional heading says; none says no version.
pub open spec fn heading_view(h: Option<Heading>) -> HeadingView {
    match h {
        Some(h) => h@,
        None => HeadingView::NoVersion,
    }
}

/// Reads the text of a `## ` heading (after `## `): its version, taken by
/// [`HEADING_PATTERN`] and parsed, and whether it lies in
/// `(installed, latest]`.
pub fn read_heading(heading: &str, installed: &Version, latest: &Version) -> (r: Heading)
    ensures
        r@ == heading_of(heading@, installed@, latest@),
        heading_ranged(r@, installed@, latest@),
{
    match capture(HEADING_PATTERN, heading, 1) {
        None => Heading::NoVersion,
        Some(text) => match Version::parse(text.as_str()) {
            Err(message) => Heading::BadVersion { text, message },
            Ok(version) => {
                let in_range = version.greater_than(installed) && !version.greater_than(latest);
                Heading::Version { version, in_range }
            },
        },
    }
}

/// The scan of a CHANGELOG, line by line.
pub struct Scan {
    pub changes: Vec<(Version, String)>,
    pub stable: Vec<(u64, u64, u64)>,
    pub version: Option<Version>,
    pub breaking: bool,
    pub body: Vec<char>,
}

impl View for Scan {
    type V = ScanState;

    open spec fn view(&self) -> ScanState {
        ScanState {
            changes: change_views(self.changes@),
            stable: self.stable@,
            version: opt_version_view(&self.version),
            breaking: self.breaking,
            body: self.body@,
        }
    }
}

impl Scan {
    /// The scan before the first line.
    pub fn new() -> (r: Scan)
        ensures
            r@ == initial_state(),
    {
        let r = Scan { changes: Vec::new(), stable: Vec::new(), version: None, breaking: false, body: Vec::new() };
        assert(change_views(r.changes@) =~= Seq::<(VersionView, Seq<char>)>::empty());
        r
    }

    /// Reads one line; `heading` is what the line says as a heading where it
    /// is a `## ` heading with text (see [`read_heading`]), and is otherwise
    /// not looked at.
    pub fn step(&mut self, line: &Vec<char>, heading: Option<Heading>) -> (r: Result<(), ChangelogError>)
        ensures
            match r {
                Ok(()) => step_with(old(self)@, line@, heading_view(heading)) == Ok::<ScanState, ScanError>(final(self)@),
                Err(e) => step_with(old(self)@, line@, heading_view(heading)) == Err::<ScanState, ScanError>(e.view()),
            },
    {
        let ghost before = self@;
        let ghost hv = heading_view(heading);
        let heading_prefix = chars_of("## ");
        let sub_prefix = chars_of("### ");
        let breaking_marker = chars_of("BREAKING CHANGES");
        if starts_with(line, &heading_prefix) {
            // Close the current section.
            let taken = self.version.take();
            match taken {
                Some(v) => {
                    let t = trimmed(&self.body);
                    if t.len() > 0 {
                        self.changes.push((v, string_of(&t)));
                        proof {
                            assert(change_views(self.changes@) =~= before.changes.push((before.version->0, trim(before.body))));
                        }
                    }
                },
                None => {},
            }
            self.body = Vec::new();
            self.breaking = false;
            assert(self@ == close_section(before));
            if line.len() > heading_prefix.len() {
                let rest = slice_range(line, heading_prefix.len(), line.len());
                assert(rest@ =~= line@.skip("## "@.len() as int));
                match heading {
                    None => {
                        return Err(ChangelogError::Heading(string_of(&rest)));
                    },
                    Some(Heading::NoVersion) => {
                        return Err(ChangelogError::Heading(string_of(&rest)));
                    },
                    Some(Heading::BadVersion { text, message }) => {
                        return Err(ChangelogError::Version { text, message });
                    },
                    Some(Heading::Version { version, in_range }) => {
                        let ghost closed = self@;
                        let ghost v = version@;
                        if in_range {
                            if version.is_release() {
                                self.stable.push((version.major, version.minor, version.patch));
                            }
                            self.version = Some(version);
                            assert(self@ == ScanState {
                                changes: closed.changes,
                                stable: if v.is_release() {
                                    closed.stable.push(v.triple())
                                } else {
                                    closed.stable
                                },
                                version: Some(v),
                                breaking: false,
                                body: Seq::empty(),
                            });
                        }
                        assert(step_with(before, line@, hv) == Ok::<ScanState, ScanError>(self@));
                    },
                }
            } else {
                assert(line@.skip("## "@.len() as int).len() == 0);
                assert(step_with(before, line@, hv) == Ok::<ScanState, ScanError>(self@));
            }
        } else if starts_with(line, &sub_prefix) {
            let rest = slice_range(line, sub_prefix.len(), line.len());
            assert(rest@ =~= line@.skip("### "@.len() as int));
            let t = trimmed(&rest);
            self.breaking = ends_with(&t, &breaking_marker);
            assert(step_with(before, line@, hv) == Ok::<ScanState, ScanError>(self@));
        } else if self.version.is_some() && self.breaking {
            let mut m: usize = 0;
            let ghost body0 = self.body@;
            while m < line.len()
                invariant
                    m <= line@.len(),
                    self.body@ == body0 + line@.take(m as int),
                    change_views(self.changes@) == before.changes,
                    self.stable@ == before.stable,
                    opt_version_view(&self.version) == before.version,
                    self.breaking == before.breaking,
                    body0 == before.body,
                decreases line.len() - m,
            {
                self.body.push(line[m]);
                m = m + 1;
                assert(self.body@ =~= body0 + line@.take(m as int));
            }
            self.body.push('\n');
            assert(self.body@ =~= body0 + line@ + seq!['\n']);
            assert(step_with(before, line@, hv) == Ok::<ScanState, ScanError>(self@));
        }
        Ok(())
    }
}

/// The breaking changes of `changelog` for an update from `installed` to
/// `latest`: for each `## ` section whose version lies in
/// `(installed, latest]`, the trimmed text under its `### ...BREAKING CHANGES`
/// subsections, when that is not empty. A pre-release section is left out
/// when the release it precedes is in range too.
pub fn breaking_changes(changelog: &str, installed: &Version, latest: &Version) -> (r: Result<Vec<(Version, String)>, ChangelogError>)
    ensures
        match r {
            Ok(changes) => breaking_changes_of(changelog@, installed@, latest@) == Ok::<Seq<(VersionView, Seq<char>)>, ScanError>(change_views(changes@)),
            Err(e) => breaking_changes_of(changelog@, installed@, latest@) == Err::<Seq<(VersionView, Seq<char>)>, ScanError>(e.view()),
        },
        r matches Ok(changes) ==> forall|i: int| 0 <= i < changes@.len() ==> {
            let c = #[trigger] changes@[i];
            &&& in_range(c.0@, installed@, latest@)
            &&& release_in_range(c.0@, installed@, latest@)
            &&& c.1@.len() > 0
            &&& trim(c.1@) == c.1@
        },
        r matches Ok(changes) ==> forall|i: int, j: int|
            0 <= i < changes@.len() && 0 <= j < changes@.len() && (#[trigger] changes@[i]).0@.is_release()
                ==> !((#[trigger] changes@[j]).0@.triple() == changes@[i].0@.triple() && !changes@[j].0@.is_release()),
{
    let text = chars_of(changelog);
    let mut all_lines = split_lines(&text);
    all_lines.push(chars_of("## "));
    let ghost lines_seq = lines(changelog@).push("## "@);
    assert(views(all_lines@) =~= lines_seq);
    let heading_prefix = chars_of("## ");

    let mut sc = Scan::new();
    let mut k: usize = 0;
    assert(lines_seq.take(0) =~= Seq::<Seq<char>>::empty());
    while k < all_lines.len()
        invariant
            k <= all_lines@.len(),
            views(all_lines@) == lines_seq,
            lines_seq == lines(changelog@).push("## "@),
            heading_prefix@ == "## "@,
            ranged(sc@, installed@, latest@),
            scan(lines_seq.take(k as int), installed@, latest@) == Ok::<ScanState, ScanError>(sc@),
        decreases all_lines.len() - k,
    {
        let line = &all_lines[k];
        let ghost before = sc@;
        proof {
            assert(lines_seq.take(k + 1).drop_last() =~= lines_seq.take(k as int));
            assert(lines_seq.take(k + 1).last() == line@);
        }
        let heading = if line.len() > heading_prefix.len() && starts_with(line, &heading_prefix) {
            let rest = slice_range(line, heading_prefix.len(), line.len());
            let rest_text = string_of(&rest);
            assert(rest_text@ =~= line@.skip("## "@.len() as int));
            Some(read_heading(rest_text.as_str(), installed, latest))
        } else {
            None
        };
        let ghost hv = heading_view(heading);
        assert(step(before, line@, installed@, latest@) == step_with(before, line@, hv));
        proof {
            lemma_step_ranged(before, line@, hv, installed@, latest@);
        }
        match sc.step(line, heading) {
            Ok(()) => {},
            Err(e) => {
                proof {
                    lemma_scan_error_persists(lines_seq, k + 1, installed@, latest@);
                }
                return Err(e);
            },
        }
        k = k + 1;
    }
    proof {
        assert(lines_seq.take(k as int) =~= lines_seq);
        lemma_scan_invariant(lines_seq, installed@, latest@);
    }
    let ghost st = sc@;
    let Scan { changes, stable, .. } = sc;
    assert(forall|i: int| 0 <= i < changes@.len() ==> release_in_range((#[trigger] changes@[i]).0@, installed@, latest@)) by {
        assert forall|i: int| 0 <= i < changes@.len() implies release_in_range((#[trigger] changes@[i]).0@, installed@, latest@) by {
            assert(st.changes[i] == (changes@[i].0@, changes@[i].1@));
        }
    }

    // Drop the pre-releases whose release is in range.
    let mut kept: Vec<(Version, String)> = Vec::new();
    let ghost all = change_views(changes@);
    let ghost pred = |c: (VersionView, Seq<char>)| survives(c, stable@);
    let ghost n = all.len();
    let mut rest = changes;
    proof {
        assert(all.take(0).filter(pred) =~= Seq::<(VersionView, Seq<char>)>::empty());
        assert(change_views(rest@) =~= all.skip(0));
    }
    while rest.len() > 0
        invariant
            rest@.len() <= n,
            n == all.len(),
            change_views(kept@) == all.take(n - rest@.len()).filter(pred),
            change_views(rest@) == all.skip(n - rest@.len()),
            pred == (|c: (VersionView, Seq<char>)| survives(c, stable@)),
            forall|i: int| 0 <= i < kept@.len() ==> release_in_range((#[trigger] kept@[i]).0@, installed@, latest@),
            forall|i: int| 0 <= i < rest@.len() ==> release_in_range((#[trigger] rest@[i]).0@, installed@, latest@),
        decreases rest.len(),
    {
        let ghost done = n - rest@.len();
        let ghost rest0 = rest@;
        let c = rest.remove(0);
        assert(release_in_range(c.0@, installed@, latest@)) by {
            assert(c == rest0[0]);
        }
        proof {
            assert forall|i: int| 0 <= i < rest@.len() implies release_in_range((#[trigger] rest@[i]).0@, installed@, latest@) by {
                assert(rest@[i] == rest0[i + 1]);
            }
            assert forall|i: int| 0 <= i < rest@.len() implies change_views(rest@)[i] == change_views(rest0)[i + 1] by {
                assert(rest@[i] == rest0[i + 1]);
            }
            assert(change_views(rest@) =~= all.skip(done + 1));
            assert(all[done] == (c.0@, c.1@)) by {
                assert(change_views(rest0)[0] == all.skip(done)[0]);
            }
            assert(all.take(done + 1).drop_last() =~= all.take(done));
            reveal_with_fuel(Seq::filter, 1);
        }
        let keep = c.0.is_release() || !contains_triple(&stable, c.0.major, c.0.minor, c.0.patch);
        let ghost kept0 = change_views(kept@);
        let ghost kept_before = kept@;
        if keep {
            kept.push(c);
            assert(change_views(kept@) =~= kept0.push(all[done]));
            assert forall|i: int| 0 <= i < kept@.len() implies release_in_range((#[trigger] kept@[i]).0@, installed@, latest@) by {
                if i < kept_before.len() {
                    assert(kept@[i] == kept_before[i]);
                }
            }
        }
        assert(change_views(kept@) == all.take(done + 1).filter(pred));
    }
    proof {
        assert(all.take(n as int) =~= all);
        let result = change_views(kept@);
        assert forall|i: int| 0 <= i < kept@.len() implies {
            let c = #[trigger] kept@[i];
            &&& in_range(c.0@, installed@, latest@)
            &&& c.1@.len() > 0
            &&& trim(c.1@) == c.1@
        } by {
            assert(result[i] == (kept@[i].0@, kept@[i].1@));
            lemma_filter_member(all, pred, i);
        }
        assert forall|i: int, j: int|
            0 <= i < kept@.len() && 0 <= j < kept@.len() && (#[trigger] kept@[i]).0@.is_release()
                implies !((#[trigger] kept@[j]).0@.triple() == kept@[i].0@.triple() && !kept@[j].0@.is_release()) by {
            assert(result[i] == (kept@[i].0@, kept@[i].1@));
            assert(result[j] == (kept@[j].0@, kept@[j].1@));
            lemma_filter_member(all, pred, i);
            lemma_filter_member(all, pred, j);
            assert(pred(result[j]));
        }
    }
    Ok(kept)
}

/// Whether `triples` holds `(major, minor, patch)`.
fn contains_triple(triples: &Vec<(u64, u64, u64)>, major: u64, minor: u64, patch: u64) -> (r: bool)
    ensures
        r == triples@.contains((major, minor, patch)),
{
    let mut k: usize = 0;
    while k < triples.len()
        invariant
            k <= triples@.len(),
            forall|m: int| 0 <= m < k ==> triples@[m] != (major, minor, patch),
        decreases triples.len() - k,
    {
        let t = triples[k];
        if t.0 == major && t.1 == minor && t.2 == patch {
            assert(triples@[k as int] == (major, minor, patch));
            return true;
        }
        k = k + 1;
    }
    false
}

/// An element of a filtered sequence is an element of the sequence that
/// satisfies the predicate.
proof fn lemma_filter_member<A>(s: Seq<A>, pred: spec_fn(A) -> bool, i: int)
    requires
        0 <= i < s.filter(pred).len(),
    ensures
        s.contains(s.filter(pred)[i]),
        pred(s.filter(pred)[i]),

    decreases s.len(),
{
    reveal(Seq::filter);
    let sub = s.drop_last().filter(pred);
    if pred(s.last()) && i == sub.len() {
        assert(s.filter(pred)[i] == s.last());
        assert(s[s.len() - 1] == s.last());
    } else {
        lemma_filter_member(s.drop_last(), pred, i);
        let k = choose|k: int| 0 <= k < s.drop_last().len() && s.drop_last()[k] == sub[i];
        assert(s[k] == sub[i]);
    }
}

/// Once the scan fails, reading more lines does not change the error.
proof fn lemma_scan_error_persists(lines: Seq<Seq<char>>, k: int, installed: VersionView, latest: VersionView)
    requires
        0 <= k <= lines.len(),
        scan(lines.take(k), installed, latest) is Err,
    ensures
        scan(lines, installed, latest) == scan(lines.take(k), installed, latest),
    decreases lines.len() - k,
{
    if k < lines.len() {
        assert(lines.take(k + 1).drop_last() =~= lines.take(k));
        lemma_scan_error_persists(lines, k + 1, installed, latest);
    } else {
        assert(lines.take(k) =~= lines);
    }
}


/// Every `## ` heading ends the breaking-changes subsection: after it the scan
/// is in no such subsection and the new section has no text yet, so a
/// section's text is collected only under a `### ...BREAKING CHANGES` heading
/// of that same section.
pub proof fn lemma_heading_ends_breaking(st: ScanState, line: Seq<char>, h: HeadingView)
    requires
        has_prefix(line, "## "@),
    ensures
        step_with(st, line, h) matches Ok(next) ==> !next.breaking && next.body.len() == 0,
{
}

/// A `### ` heading says whether breaking changes follow by whether its
/// trimmed text ends with `BREAKING CHANGES`, and changes nothing else.
pub proof fn lemma_subheading_sets_breaking(st: ScanState, line: Seq<char>, h: HeadingView)
    requires
        has_prefix(line, "### "@),
    ensures
        step_with(st, line, h) == Ok::<ScanState, ScanError>(ScanState {
            breaking: has_suffix(trim(line.skip(4)), "BREAKING CHANGES"@),
            ..st
        }),
{
    reveal_strlit("### ");
    reveal_strlit("## ");
    assert(line.take(4)[2] == "### "@[2]);
    assert(line[2] == '#');
    assert(!has_prefix(line, "## "@)) by {
        if has_prefix(line, "## "@) {
            assert(line.take(3)[2] == "## "@[2]);
        }
    }
}

/// Any other line adds itself, with a line break, to the section's text when
/// a section in range is open in a breaking-changes subsection, and changes
/// nothing otherwise.
pub proof fn lemma_text_line(st: ScanState, line: Seq<char>, h: HeadingView)
    requires
        !has_prefix(line, "## "@),
        !has_prefix(line, "### "@),
    ensures
        st.version is Some && st.breaking ==> step_with(st, line, h) == Ok::<ScanState, ScanError>(ScanState { body: st.body + line + seq!['\n'], ..st }),
        !(st.version is Some && st.breaking) ==> step_with(st, line, h) == Ok::<ScanState, ScanError>(st),
{
}

} // verus!
