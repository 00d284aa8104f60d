//! The schema configuration: which pinyin layout and auxiliary-code mode the
//! `*.custom.yaml` files select through algebra references.

use vstd::prelude::*;
use vstd::string::*;
use crate::options::{AuxMode, Pinyin, Schema};
use crate::pattern::{capture, regex_capture};
use crate::text::{
    byte_index, byte_offset, byte_offset_of, char_index_at, chars_equal, chars_of, has_prefix,
    lemma_byte_index_bounds, lemma_byte_index_of_offset, lemma_utf8_len_grows, slice_range,
    utf8_len,
    starts_with, string_of,
};
use crate::yaml::{fields, key_path, str_value, yaml_document, Document, YamlError, YamlNode, YamlValue};

verus! {

broadcast use vstd::string::group_string_axioms;

/// The pattern whose first group is the name that an algebra reference selects.
pub const ALGEBRA_PATTERN: &'static str = "^wanxiang_algebra:/(?:base|pro)/(.+)$";

/// The configuration that the custom files select.
#[derive(Clone, Copy, Debug, PartialEq, Eq, Structural)]
pub struct Custom {
    pub pinyin: Option<Pinyin>,
    pub aux_mode: Option<AuxMode>,
}

/// Applying a configuration to the files of an edition.
pub struct Apply {
    pub schema: Schema,
    pub custom: Custom,
}

/// The paths under which a custom file lists its algebra patches.
pub open spec fn custom_path(k: int) -> Seq<&'static str> {
    if k == 0 {
        seq!["patch", "speller/algebra", "__patch"]
    } else if k == 1 {
        seq!["patch", "speller/algebra", "__include"]
    } else if k == 2 {
        seq!["patch", "speller/algebra/__patch"]
    } else {
        seq!["patch", "speller/algebra/__include"]
    }
}

/// The path under which a schema file lists its algebra patches.
pub open spec fn schema_path() -> Seq<&'static str> {
    seq!["speller", "algebra", "__patch"]
}

/// The values under the custom paths, path after path.
pub open spec fn custom_fields(root: YamlNode) -> Seq<YamlValue> {
    fields(root, key_path(custom_path(0))) + fields(root, key_path(custom_path(1))) + fields(
        root,
        key_path(custom_path(2)),
    ) + fields(root, key_path(custom_path(3)))
}

/// The strings among `vals`, in order.
pub open spec fn string_values(vals: Seq<YamlValue>) -> Seq<Seq<char>>
    decreases vals.len(),
{
    if vals.len() == 0 {
        Seq::empty()
    } else {
        string_values(vals.drop_last()) + match str_value(vals.last()) {
            Some(s) => seq![s],
            None => Seq::empty(),
        }
    }
}

/// The names that the algebra references among `patches` select, in order.
pub open spec fn reference_names(patches: Seq<Seq<char>>) -> Seq<Seq<char>>
    decreases patches.len(),
{
    if patches.len() == 0 {
        Seq::empty()
    } else {
        reference_names(patches.drop_last()) + match regex_capture(
            ALGEBRA_PATTERN@,
            patches.last(),
            1,
        ) {
            Some(n) => seq![n],
            None => Seq::empty(),
        }
    }
}

/// The first layout of `layouts` whose name is among `names`.
pub open spec fn first_named(layouts: Seq<Pinyin>, names: Seq<Seq<char>>) -> Option<Pinyin>
    decreases layouts.len(),
{
    if layouts.len() == 0 {
        None
    } else if names.contains(layouts[0].spec_name()) {
        Some(layouts[0])
    } else {
        first_named(layouts.drop_first(), names)
    }
}

/// The configuration that the selected names describe: the first layout, in
/// the order they are offered, whose name is selected, and the indirect mode
/// before the direct one.
pub open spec fn custom_of_names(names: Seq<Seq<char>>) -> Custom {
    Custom {
        pinyin: first_named(Pinyin::spec_all(), names),
        aux_mode: if names.contains(AuxMode::Indirect.spec_name()) {
            Some(AuxMode::Indirect)
        } else if names.contains(AuxMode::Direct.spec_name()) {
            Some(AuxMode::Direct)
        } else {
            None
        },
    }
}

/// The configuration that the documents select: from the custom file's
/// patches, or, where it has none, from the schema file's. `None` where the
/// custom file has no patches and the schema file is not given.
pub open spec fn detected(custom: Option<YamlNode>, schema: Option<YamlNode>) -> Option<Custom> {
    let from_custom = match custom {
        Some(c) => string_values(custom_fields(c)),
        None => Seq::empty(),
    };
    if from_custom.len() > 0 {
        Some(custom_of_names(reference_names(from_custom)))
    } else {
        match schema {
            Some(s) => Some(custom_of_names(reference_names(string_values(fields(s, key_path(schema_path())))))),
            None => None,
        }
    }
}

/// The character sequences that the strings hold.
pub open spec fn string_views(v: Seq<String>) -> Seq<Seq<char>> {
    v.map_values(|s: String| s@)
}

/// Appends copies of `more` to `out`.
fn extend_values(out: &mut Vec<YamlValue>, more: &Vec<YamlValue>)
    ensures
        final(out)@ == old(out)@ + more@,
{
    let mut i: usize = 0;
    while i < more.len()
        invariant
            i <= more@.len(),
            out@ == old(out)@ + more@.take(i as int),
        decreases more.len() - i,
    {
        out.push(more[i].copy());
        i = i + 1;
        assert(out@ =~= old(out)@ + more@.take(i as int));
    }
    assert(more@.take(more@.len() as int) =~= more@);
}

/// The values under the custom paths of `doc`, path after path.
pub fn custom_values(doc: &Document) -> (r: Vec<YamlValue>)
    ensures
        r@ == custom_fields(doc.root),
{
    let p0: &[&str] = &["patch", "speller/algebra", "__patch"];
    let p1: &[&str] = &["patch", "speller/algebra", "__include"];
    let p2: &[&str] = &["patch", "speller/algebra/__patch"];
    let p3: &[&str] = &["patch", "speller/algebra/__include"];
    let mut r = doc.values(p0);
    extend_values(&mut r, &doc.values(p1));
    extend_values(&mut r, &doc.values(p2));
    extend_values(&mut r, &doc.values(p3));
    r
}

/// The strings among `vals`, in order.
pub fn strings_of(vals: &Vec<YamlValue>) -> (r: Vec<String>)
    ensures
        string_views(r@) == string_values(vals@),
{
    let mut r: Vec<String> = Vec::new();
    let mut i: usize = 0;
    while i < vals.len()
        invariant
            i <= vals@.len(),
            string_views(r@) == string_values(vals@.take(i as int)),
        decreases vals.len() - i,
    {
        let ghost before = string_views(r@);
        proof {
            let t = vals@.take(i + 1);
            assert(t.drop_last() =~= vals@.take(i as int));
            assert(t.last() == vals@[i as int]);
        }
        match vals[i].as_str() {
            Some(s) => {
                r.push(String::from_str(s));
                assert(string_views(r@) =~= before + seq![s@]);
            },
            None => {
                assert(string_views(r@) =~= before + Seq::<Seq<char>>::empty());
            },
        }
        i = i + 1;
    }
    assert(vals@.take(vals@.len() as int) =~= vals@);
    r
}

/// The names that the algebra references among `patches` select, in order.
pub fn names_of(patches: &Vec<String>) -> (r: Vec<String>)
    ensures
        string_views(r@) == reference_names(string_views(patches@)),
{
    let mut r: Vec<String> = Vec::new();
    let mut i: usize = 0;
    let ghost ps = string_views(patches@);
    while i < patches.len()
        invariant
            i <= patches@.len(),
            ps == string_views(patches@),
            string_views(r@) == reference_names(ps.take(i as int)),
        decreases patches.len() - i,
    {
        let ghost before = string_views(r@);
        proof {
            let t = ps.take(i + 1);
            assert(t.drop_last() =~= ps.take(i as int));
            assert(t.last() == patches@[i as int]@);
        }
        match capture(ALGEBRA_PATTERN, patches[i].as_str(), 1) {
            Some(n) => {
                let ghost nv = n@;
                r.push(n);
                assert(string_views(r@) =~= before + seq![nv]);
            },
            None => {
                assert(string_views(r@) =~= before + Seq::<Seq<char>>::empty());
            },
        }
        i = i + 1;
    }
    assert(ps.take(ps.len() as int) =~= ps);
    r
}

/// Whether `names` holds `name`.
fn contains_name(names: &Vec<String>, name: &str) -> (r: bool)
    ensures
        r == string_views(names@).contains(name@),
{
    let wanted = String::from_str(name);
    let mut i: usize = 0;
    while i < names.len()
        invariant
            i <= names@.len(),
            wanted@ == name@,
            forall|m: int| 0 <= m < i ==> names@[m]@ != name@,
        decreases names.len() - i,
    {
        if names[i].eq(&wanted) {
            assert(string_views(names@)[i as int] == name@);
            return true;
        }
        i = i + 1;
    }
    assert forall|m: int| 0 <= m < names@.len() implies string_views(names@)[m] != name@ by {
        assert(names@[m]@ != name@);
    }
    false
}

/// The configuration that the selected names describe.
pub fn custom_from_names(names: &Vec<String>) -> (r: Custom)
    ensures
        r == custom_of_names(string_views(names@)),
{
    let ghost ns = string_views(names@);
    let layouts = Pinyin::all();
    let mut pinyin: Option<Pinyin> = None;
    let mut i: usize = 0;
    assert(layouts@.skip(0) =~= layouts@);
    while i < layouts.len() && pinyin.is_none()
        invariant
            i <= layouts@.len(),
            layouts@ == Pinyin::spec_all(),
            ns == string_views(names@),
            pinyin is None ==> first_named(Pinyin::spec_all(), ns) == first_named(layouts@.skip(i as int), ns),
            pinyin is Some ==> pinyin == first_named(Pinyin::spec_all(), ns),
        decreases layouts.len() - i,
    {
        let p = layouts[i];
        proof {
            let t = layouts@.skip(i as int);
            assert(t[0] == p);
            assert(t.drop_first() =~= layouts@.skip(i + 1));
        }
        if contains_name(names, p.name()) {
            pinyin = Some(p);
        }
        i = i + 1;
    }
    proof {
        if pinyin is None {
            assert(layouts@.skip(i as int).len() == 0);
        }
    }
    let aux_mode = if contains_name(names, AuxMode::Indirect.name()) {
        Some(AuxMode::Indirect)
    } else if contains_name(names, AuxMode::Direct.name()) {
        Some(AuxMode::Direct)
    } else {
        None
    };
    Custom { pinyin, aux_mode }
}

/// The configuration that the documents select: from the custom file's
/// algebra patches, or, where it lists none, from the schema file's. Returns
/// `None` when the custom file lists none and the schema document is not given,
/// so that the caller reads the schema file only when it is needed.
pub fn detect(custom: Option<&Document>, schema: Option<&Document>) -> (r: Option<Custom>)
    ensures
        r == detected(
            match custom { Some(d) => Some(d.root), None => None },
            match schema { Some(d) => Some(d.root), None => None },
        ),
{
    let mut patches: Vec<String> = match custom {
        Some(d) => strings_of(&custom_values(d)),
        None => Vec::new(),
    };
    if patches.len() == 0 {
        match schema {
            Some(d) => {
                let p: &[&str] = &["speller", "algebra", "__patch"];
                patches = strings_of(&d.values(p));
            },
            None => {
                return None;
            },
        }
    }
    Some(custom_from_names(&names_of(&patches)))
}

/// Why a custom file cannot be rewritten.
pub enum RewriteError {
    /// The file is not valid YAML; the loader's message.
    Load(String),
    /// The file holds no document.
    Empty,
    /// No algebra reference selects a pinyin layout.
    MissingPinyin,
    /// A mode is to be set, but no algebra reference selects one.
    MissingAuxMode,
    /// A replacement does not fall on character boundaries of the text as it
    /// stands when it is made, or lies outside it: the loader gave a
    /// reference outside the file, or gave one reference twice (through an
    /// alias) and its first replacement changed the length.
    EditOutOfPlace,
}

/// The value of a [`RewriteError`].
pub enum RewriteFailure {
    Load(Seq<char>),
    Empty,
    MissingPinyin,
    MissingAuxMode,
    EditOutOfPlace,
}

impl RewriteError {
    pub open spec fn failure(self) -> RewriteFailure {
        match self {
            RewriteError::Load(m) => RewriteFailure::Load(m@),
            RewriteError::Empty => RewriteFailure::Empty,
            RewriteError::MissingPinyin => RewriteFailure::MissingPinyin,
            RewriteError::MissingAuxMode => RewriteFailure::MissingAuxMode,
            RewriteError::EditOutOfPlace => RewriteFailure::EditOutOfPlace,
        }
    }
}

/// A replacement of the range `[start, end)` by `text`: a range of
/// characters of the source where the scan finds it, a range of bytes of its
/// UTF-8 encoding once converted.
pub struct Edit {
    pub start: usize,
    pub end: usize,
    pub text: Vec<char>,
}

/// The value of an [`Edit`].
pub struct EditView {
    pub start: int,
    pub end: int,
    pub text: Seq<char>,
}

impl View for Edit {
    type V = EditView;

    open spec fn view(&self) -> EditView {
        EditView { start: self.start as int, end: self.end as int, text: self.text@ }
    }
}

/// The values of the edits.
pub open spec fn edit_views(v: Seq<Edit>) -> Seq<EditView> {
    v.map_values(|e: Edit| e@)
}

/// The prefix of the algebra references of group `group`.
pub open spec fn reference_prefix(group: Seq<char>) -> Seq<char> {
    "wanxiang_algebra:/"@ + group + "/"@
}

/// Whether `name` names a pinyin layout.
pub open spec fn is_pinyin_name(name: Seq<char>) -> bool {
    exists|p: Pinyin| p.spec_name() == name
}

/// Whether `name` names an auxiliary-code mode.
pub open spec fn is_aux_mode_name(name: Seq<char>) -> bool {
    exists|m: AuxMode| m.spec_name() == name
}

/// The name that replaces the referenced name `old`: the configured layout for
/// a layout name, the configured mode for a mode name, nothing for others.
pub open spec fn replacement(old: Seq<char>, custom: Custom) -> Option<Seq<char>> {
    if is_pinyin_name(old) {
        match custom.pinyin {
            Some(p) => Some(p.spec_name()),
            None => None,
        }
    } else if is_aux_mode_name(old) {
        match custom.aux_mode {
            Some(m) => Some(m.spec_name()),
            None => None,
        }
    } else {
        None
    }
}

/// What the scan of the references gathers: whether a layout reference and a
/// mode reference were met, and the edits, in the order the references come.
pub struct RewriteScan {
    pub found_pinyin: bool,
    pub found_aux_mode: bool,
    pub edits: Seq<EditView>,
}

/// The scan over the values `vals`.
pub open spec fn rewrite_scan(vals: Seq<YamlValue>, prefix: Seq<char>, custom: Custom) -> RewriteScan
    decreases vals.len(),
{
    if vals.len() == 0 {
        RewriteScan { found_pinyin: false, found_aux_mode: false, edits: Seq::empty() }
    } else {
        let before = rewrite_scan(vals.drop_last(), prefix, custom);
        let v = vals.last();
        match str_value(v) {
            Some(s) => if has_prefix(s, prefix) {
                let old = s.skip(prefix.len() as int);
                RewriteScan {
                    found_pinyin: before.found_pinyin || is_pinyin_name(old),
                    found_aux_mode: before.found_aux_mode || (!is_pinyin_name(old) && is_aux_mode_name(old)),
                    edits: match replacement(old, custom) {
                        Some(new) => if new != old {
                            before.edits.push(EditView { start: v.start as int, end: v.end as int, text: prefix + new })
                        } else {
                            before.edits
                        },
                        None => before.edits,
                    },
                }
            } else {
                before
            },
            None => before,
        }
    }
}

/// `e` inserted into `sorted` before the first edit that starts before it.
pub open spec fn insert_desc(sorted: Seq<EditView>, e: EditView) -> Seq<EditView>
    decreases sorted.len(),
{
    if sorted.len() == 0 {
        seq![e]
    } else if sorted[0].start < e.start {
        seq![e] + sorted
    } else {
        seq![sorted[0]] + insert_desc(sorted.drop_first(), e)
    }
}

/// The edits by descending start; edits with equal starts keep their order.
pub open spec fn sort_desc(edits: Seq<EditView>) -> Seq<EditView>
    decreases edits.len(),
{
    if edits.len() == 0 {
        Seq::empty()
    } else {
        insert_desc(sort_desc(edits.drop_last()), edits.last())
    }
}

/// Whether edits by descending start lie within a text of `len` characters and
/// do not overlap.
pub open spec fn edits_fit(sorted: Seq<EditView>, len: int) -> bool {
    &&& forall|k: int| 0 <= k < sorted.len() ==> 0 <= (#[trigger] sorted[k]).start <= sorted[k].end
    &&& sorted.len() > 0 ==> sorted[0].end <= len
    &&& forall|k: int| 0 <= k < sorted.len() - 1 ==> (#[trigger] sorted[k + 1]).end <= sorted[k].start
}

/// `text` with the edits applied one after the other.
pub open spec fn splice(text: Seq<char>, edits: Seq<EditView>) -> Seq<char>
    decreases edits.len(),
{
    if edits.len() == 0 {
        text
    } else {
        let e = edits[0];
        splice(text.take(e.start) + e.text + text.skip(e.end), edits.drop_first())
    }
}

/// The edit `e`, its character range turned into byte offsets of `source`;
/// `None` where the range does not lie within the source.
pub open spec fn byte_edit(source: Seq<char>, e: EditView) -> Option<EditView> {
    match (byte_offset(source, e.start), byte_offset(source, e.end)) {
        (Some(s), Some(t)) => Some(EditView { start: s, end: t, text: e.text }),
        _ => None,
    }
}

/// The edits with byte ranges of `source`; `None` where one does not lie
/// within the source.
pub open spec fn byte_edits(source: Seq<char>, edits: Seq<EditView>) -> Option<Seq<EditView>>
    decreases edits.len(),
{
    if edits.len() == 0 {
        Some(Seq::empty())
    } else {
        match (byte_edits(source, edits.drop_last()), byte_edit(source, edits.last())) {
            (Some(before), Some(e)) => Some(before.push(e)),
            _ => None,
        }
    }
}

/// `text` with the bytes `[e.start, e.end)` of its UTF-8 encoding replaced by
/// `e.text`; `None` where the range is reversed or its ends are no character
/// boundaries of `text` (std's `String::replace_range` panics there).
pub open spec fn replace_bytes(text: Seq<char>, e: EditView) -> Option<Seq<char>> {
    if e.start <= e.end {
        match (byte_index(text, e.start), byte_index(text, e.end)) {
            (Some(cs), Some(ce)) => Some(text.take(cs) + e.text + text.skip(ce)),
            _ => None,
        }
    } else {
        None
    }
}

/// `text` with the byte edits made one after the other, each on the text
/// that the ones before it left; `None` where one cannot be made.
pub open spec fn replace_all(text: Seq<char>, edits: Seq<EditView>) -> Option<Seq<char>>
    decreases edits.len(),
{
    if edits.len() == 0 {
        Some(text)
    } else {
        match replace_bytes(text, edits[0]) {
            Some(next) => replace_all(next, edits.drop_first()),
            None => None,
        }
    }
}

/// What rewriting `source` gives, where `values` are the scalar values at the
/// custom algebra paths of its document: each algebra reference of group
/// `group` that names a layout or mode other than the configured one is
/// replaced by a reference to the configured one, the replacements made from
/// the end of the file backwards. `None` where a replacement cannot be made.
pub open spec fn rewrite_of_values(source: Seq<char>, values: Seq<YamlValue>, group: Seq<char>, custom: Custom) -> Option<Result<Seq<char>, RewriteFailure>> {
    let scan = rewrite_scan(values, reference_prefix(group), custom);
    match byte_edits(source, scan.edits) {
        None => None,
        Some(edits) => if !scan.found_pinyin {
            Some(Err(RewriteFailure::MissingPinyin))
        } else if custom.aux_mode is Some && !scan.found_aux_mode {
            Some(Err(RewriteFailure::MissingAuxMode))
        } else {
            match replace_all(source, sort_desc(edits)) {
                Some(out) => Some(Ok(out)),
                None => None,
            }
        },
    }
}

/// What rewriting `source` for group `group` gives (see [`rewrite_of_values`]).
pub open spec fn rewritten(source: Seq<char>, group: Seq<char>, custom: Custom) -> Result<Seq<char>, RewriteFailure> {
    match yaml_document(source) {
        Err(m) => Err(RewriteFailure::Load(m)),
        Ok(None) => Err(RewriteFailure::Empty),
        Ok(Some(root)) => match rewrite_of_values(source, custom_fields(root), group, custom) {
            Some(r) => r,
            None => Err(RewriteFailure::EditOutOfPlace),
        },
    }
}

/// The edits that rewriting `source` makes; empty where it cannot be loaded.
pub open spec fn rewrite_edits(source: Seq<char>, group: Seq<char>, custom: Custom) -> Seq<EditView> {
    match yaml_document(source) {
        Ok(Some(root)) => rewrite_scan(custom_fields(root), reference_prefix(group), custom).edits,
        _ => Seq::empty(),
    }
}

proof fn lemma_insert_desc(sorted: Seq<EditView>, e: EditView, p: int)
    requires
        0 <= p <= sorted.len(),
        forall|k: int| 0 <= k < p ==> !((#[trigger] sorted[k]).start < e.start),
        p < sorted.len() ==> sorted[p].start < e.start,
    ensures
        insert_desc(sorted, e) == sorted.insert(p, e),
    decreases sorted.len(),
{
    if sorted.len() == 0 {
        assert(sorted.insert(p, e) =~= seq![e]);
    } else if p == 0 {
        assert(sorted.insert(0, e) =~= seq![e] + sorted);
    } else {
        assert(!(sorted[0].start < e.start));
        let t = sorted.drop_first();
        assert forall|k: int| 0 <= k < p - 1 implies !((#[trigger] t[k]).start < e.start) by {
            assert(t[k] == sorted[k + 1]);
        }
        lemma_insert_desc(t, e, p - 1);
        assert(seq![sorted[0]] + t.insert(p - 1, e) =~= sorted.insert(p, e));
    }
}

/// Where `e` goes among `sorted`: before the first edit that starts before it.
fn insert_position(sorted: &Vec<Edit>, e: &Edit) -> (p: usize)
    ensures
        p <= sorted@.len(),
        forall|k: int| 0 <= k < p ==> !((#[trigger] sorted@[k]).start < e.start),
        p < sorted@.len() ==> sorted@[p as int].start < e.start,
{
    let mut p: usize = 0;
    while p < sorted.len() && !(sorted[p].start < e.start)
        invariant
            p <= sorted@.len(),
            forall|k: int| 0 <= k < p ==> !((#[trigger] sorted@[k]).start < e.start),
        decreases sorted.len() - p,
    {
        p = p + 1;
    }
    p
}

/// What the scan of `values` gathers (see [`rewrite_scan`]): whether a layout
/// reference and a mode reference were met, and the edits.
fn scan_references(values: &Vec<YamlValue>, prefix: &Vec<char>, custom: Custom) -> (r: (bool, bool, Vec<Edit>))
    ensures
        r.0 == rewrite_scan(values@, prefix@, custom).found_pinyin,
        r.1 == rewrite_scan(values@, prefix@, custom).found_aux_mode,
        edit_views(r.2@) == rewrite_scan(values@, prefix@, custom).edits,
{
    let ghost pv = prefix@;
    let mut found_pinyin = false;
    let mut found_aux_mode = false;
    let mut edits: Vec<Edit> = Vec::new();
    let mut i: usize = 0;
    assert(values@.take(0) =~= Seq::<YamlValue>::empty());
    assert(edit_views(edits@) =~= Seq::<EditView>::empty());
    while i < values.len()
        invariant
            i <= values@.len(),
            prefix@ == pv,
            ({
                let scan = rewrite_scan(values@.take(i as int), pv, custom);
                &&& scan.found_pinyin == found_pinyin
                &&& scan.found_aux_mode == found_aux_mode
                &&& scan.edits == edit_views(edits@)
            }),
        decreases values.len() - i,
    {
        let v = &values[i];
        proof {
            let t = values@.take(i + 1);
            assert(t.drop_last() =~= values@.take(i as int));
            assert(t.last() == values@[i as int]);
        }
        match v.as_str() {
            Some(s) => {
                let sc = chars_of(s);
                if starts_with(&sc, &prefix) {
                    let old = slice_range(&sc, prefix.len(), sc.len());
                    assert(old@ =~= sc@.skip(pv.len() as int));
                    let as_pinyin = Pinyin::from_name(&old);
                    let as_mode = if as_pinyin.is_none() {
                        AuxMode::from_name(&old)
                    } else {
                        None
                    };
                    let new: Option<&'static str> = if as_pinyin.is_some() {
                        found_pinyin = true;
                        match custom.pinyin {
                            Some(p) => Some(p.name()),
                            None => None,
                        }
                    } else {
                        if as_mode.is_some() {
                            found_aux_mode = true;
                            match custom.aux_mode {
                                Some(m) => Some(m.name()),
                                None => None,
                            }
                        } else {
                            None
                        }
                    };
                    proof {
                        match as_pinyin {
                            Some(p) => assert(is_pinyin_name(old@)),
                            None => assert(!is_pinyin_name(old@)),
                        }
                        if as_pinyin is None {
                            match as_mode {
                                Some(m) => assert(is_aux_mode_name(old@)),
                                None => assert(!is_aux_mode_name(old@)),
                            }
                        }
                        assert(match new {
                            Some(n) => replacement(old@, custom) == Some(n@),
                            None => replacement(old@, custom) is None,
                        });
                    }
                    match new {
                        Some(n) => {
                            let nc = chars_of(n);
                            if !chars_equal(&nc, &old) {
                                let mut text = prefix.clone();
                                let mut k: usize = 0;
                                while k < nc.len()
                                    invariant
                                        k <= nc@.len(),
                                        text@ == pv + nc@.take(k as int),
                                    decreases nc.len() - k,
                                {
                                    text.push(nc[k]);
                                    k = k + 1;
                                    assert(text@ =~= pv + nc@.take(k as int));
                                }
                                assert(nc@.take(nc@.len() as int) =~= nc@);
                                let ghost before = edit_views(edits@);
                                edits.push(Edit { start: v.start, end: v.end, text });
                                assert(edit_views(edits@) =~= before.push(EditView { start: v.start as int, end: v.end as int, text: pv + nc@ }));
                            }
                        },
                        None => {},
                    }
                }
            },
            None => {},
        }
        i = i + 1;
    }
    assert(values@.take(values@.len() as int) =~= values@);
    assert(found_pinyin == rewrite_scan(values@, prefix@, custom).found_pinyin);
    assert(found_aux_mode == rewrite_scan(values@, prefix@, custom).found_aux_mode);
    (found_pinyin, found_aux_mode, edits)
}

/// Once an edit does not lie within the source, neither do the edits.
proof fn lemma_byte_edits_none(source: Seq<char>, edits: Seq<EditView>, k: int)
    requires
        0 <= k <= edits.len(),
        byte_edits(source, edits.take(k)) is None,
    ensures
        byte_edits(source, edits) is None,
    decreases edits.len() - k,
{
    if k < edits.len() {
        assert(edits.take(k + 1).drop_last() =~= edits.take(k));
        lemma_byte_edits_none(source, edits, k + 1);
    } else {
        assert(edits.take(k) =~= edits);
    }
}

/// The edits with byte ranges of `source` (see [`byte_edits`]).
fn to_byte_edits(source: &Vec<char>, edits: &Vec<Edit>) -> (r: Option<Vec<Edit>>)
    ensures
        match r {
            Some(b) => byte_edits(source@, edit_views(edits@)) == Some(edit_views(b@)),
            None => byte_edits(source@, edit_views(edits@)) is None,
        },
{
    let ghost all = edit_views(edits@);
    let mut out: Vec<Edit> = Vec::new();
    let mut i: usize = 0;
    assert(all.take(0) =~= Seq::<EditView>::empty());
    assert(edit_views(out@) =~= Seq::<EditView>::empty());
    while i < edits.len()
        invariant
            i <= edits@.len(),
            all == edit_views(edits@),
            byte_edits(source@, all.take(i as int)) == Some(edit_views(out@)),
        decreases edits.len() - i,
    {
        let e = &edits[i];
        assert(all[i as int] == e@);
        assert(all.take(i + 1).drop_last() =~= all.take(i as int));
        assert(all.take(i + 1).last() == e@);
        let start = byte_offset_of(source, e.start);
        let end = byte_offset_of(source, e.end);
        match (start, end) {
            (Some(start), Some(end)) => {
                let text = slice_range(&e.text, 0, e.text.len());
                assert(text@ =~= e.text@);
                let ghost before = edit_views(out@);
                out.push(Edit { start, end, text });
                assert(edit_views(out@) =~= before.push(EditView { start: start as int, end: end as int, text: e.text@ }));
            },
            _ => {
                proof {
                    lemma_byte_edits_none(source@, all, i + 1);
                }
                return None;
            },
        }
        i = i + 1;
    }
    assert(all.take(edits@.len() as int) =~= all);
    Some(out)
}

/// The edits in descending order of start (see [`sort_desc`]).
fn sort_edits(edits: Vec<Edit>) -> (r: Vec<Edit>)
    ensures
        edit_views(r@) == sort_desc(edit_views(edits@)),
{
    let ghost all = edit_views(edits@);
    let mut sorted: Vec<Edit> = Vec::new();
    let mut pending = edits;
    let ghost n = all.len();
    assert(all.take(0) =~= Seq::<EditView>::empty());
    assert(edit_views(pending@) =~= all.skip(0));
    while pending.len() > 0
        invariant
            pending@.len() <= n,
            n == all.len(),
            edit_views(sorted@) == sort_desc(all.take(n - pending@.len())),
            edit_views(pending@) == all.skip(n - pending@.len()),
        decreases pending.len(),
    {
        let ghost done = n - pending@.len();
        let ghost pending0 = pending@;
        let e = pending.remove(0);
        proof {
            assert forall|j: int| 0 <= j < pending@.len() implies edit_views(pending@)[j] == edit_views(pending0)[j + 1] by {
                assert(pending@[j] == pending0[j + 1]);
            }
            assert(edit_views(pending@) =~= all.skip(done + 1));
            assert(all[done] == e@) by {
                assert(edit_views(pending0)[0] == all.skip(done)[0]);
            }
            let t = all.take(done + 1);
            assert(t.drop_last() =~= all.take(done));
            assert(t.last() == e@);
        }
        let p = insert_position(&sorted, &e);
        let ghost sorted0 = edit_views(sorted@);
        proof {
            assert forall|k: int| 0 <= k < p implies !((#[trigger] sorted0[k]).start < e@.start) by {
                assert(sorted0[k] == sorted@[k]@);
            }
            if p < sorted@.len() {
                assert(sorted0[p as int] == sorted@[p as int]@);
            }
            lemma_insert_desc(sorted0, e@, p as int);
        }
        let ghost ev = e@;
        sorted.insert(p, e);
        assert(edit_views(sorted@) =~= sorted0.insert(p as int, ev));
    }
    assert(all.take(n as int) =~= all);

    sorted
}

/// `text` with `e` made on it (see [`replace_bytes`]).
fn replace_bytes_in(text: &Vec<char>, e: &Edit) -> (r: Option<Vec<char>>)
    ensures
        match r {
            Some(t) => replace_bytes(text@, e@) == Some(t@),
            None => replace_bytes(text@, e@) is None,
        },
{
    if e.start > e.end {
        return None;
    }
    let cs = match char_index_at(text, e.start) {
        Some(i) => i,
        None => {
            return None;
        },
    };
    let ce = match char_index_at(text, e.end) {
        Some(i) => i,
        None => {
            return None;
        },
    };
    proof {
        lemma_byte_index_bounds(text@, e.start as int);
        lemma_byte_index_bounds(text@, e.end as int);
    }
    let mut r = slice_range(text, 0, cs);
    assert(r@ =~= text@.take(cs as int));
    let mut k: usize = 0;
    while k < e.text.len()
        invariant
            k <= e.text@.len(),
            r@ == text@.take(cs as int) + e.text@.take(k as int),
        decreases e.text.len() - k,
    {
        r.push(e.text[k]);
        k = k + 1;
        assert(r@ =~= text@.take(cs as int) + e.text@.take(k as int));
    }
    let tail = slice_range(text, ce, text.len());
    let mut k: usize = 0;
    let ghost mid = r@;
    assert(e.text@.take(e.text@.len() as int) =~= e.text@);
    while k < tail.len()
        invariant
            k <= tail@.len(),
            r@ == mid + tail@.take(k as int),
        decreases tail.len() - k,
    {
        r.push(tail[k]);
        k = k + 1;
        assert(r@ =~= mid + tail@.take(k as int));
    }
    assert(tail@.take(tail@.len() as int) =~= text@.skip(ce as int));
    Some(r)
}

/// `text` with the edits made one after the other (see [`replace_all`]).
fn replace_all_in(text: &Vec<char>, edits: &Vec<Edit>) -> (r: Option<Vec<char>>)
    ensures
        match r {
            Some(t) => replace_all(text@, edit_views(edits@)) == Some(t@),
            None => replace_all(text@, edit_views(edits@)) is None,
        },
{
    let ghost sv = edit_views(edits@);
    let ghost start = text@;
    let mut out = slice_range(text, 0, text.len());
    assert(out@ =~= start);
    let mut j: usize = 0;
    assert(sv.skip(0) =~= sv);
    while j < edits.len()
        invariant
            j <= edits@.len(),
            sv == edit_views(edits@),
            start == text@,
            replace_all(start, sv) == replace_all(out@, sv.skip(j as int)),
        decreases edits.len() - j,
    {
        let e = &edits[j];
        let ghost rest = sv.skip(j as int);
        assert(rest[0] == e@);
        assert(rest.drop_first() =~= sv.skip(j + 1));
        match replace_bytes_in(&out, e) {
            Some(next) => {
                out = next;
            },
            None => {
                assert(replace_all(out@, rest) is None);
                return None;
            },
        }
        j = j + 1;
    }
    assert(sv.skip(edits@.len() as int) =~= Seq::<EditView>::empty());
    Some(out)
}

/// The prefix of the algebra references of group `group`.
fn prefix_of(group: &str) -> (r: Vec<char>)
    ensures
        r@ == reference_prefix(group@),
{
    let mut prefix_text = String::from_str("wanxiang_algebra:/");
    prefix_text.append(group);
    prefix_text.append("/");
    let prefix = chars_of(prefix_text.as_str());
    assert(prefix@ =~= reference_prefix(group@));
    prefix
}

/// The rewrite of `source` given its values (see [`rewrite_of_values`]);
/// `None` where a replacement cannot be made.
fn try_rewrite(source: &str, values: &Vec<YamlValue>, group: &str, custom: Custom) -> (r: Option<Result<String, RewriteError>>)
    ensures
        match r {
            None => rewrite_of_values(source@, values@, group@, custom) is None,
            Some(Ok(t)) => rewrite_of_values(source@, values@, group@, custom) == Some(Ok::<Seq<char>, RewriteFailure>(t@)),
            Some(Err(e)) => rewrite_of_values(source@, values@, group@, custom) == Some(Err::<Seq<char>, RewriteFailure>(e.failure())),
        },
{
    let prefix = prefix_of(group);
    let (found_pinyin, found_aux_mode, edits) = scan_references(values, &prefix, custom);
    let text = chars_of(source);
    let byte_edits = match to_byte_edits(&text, &edits) {
        Some(b) => b,
        None => {
            return None;
        },
    };
    if !found_pinyin {
        return Some(Err(RewriteError::MissingPinyin));
    }
    if custom.aux_mode.is_some() && !found_aux_mode {
        return Some(Err(RewriteError::MissingAuxMode));
    }
    let sorted = sort_edits(byte_edits);
    match replace_all_in(&text, &sorted) {
        Some(out) => Some(Ok(string_of(&out))),
        None => None,
    }
}

/// Rewrites the custom file `source`, where `values` are the scalar values at
/// the custom algebra paths of its document, so that its algebra references
/// of group `group` select the layout and mode of `custom`; a reference that
/// already selects them is left as it is. The replacements are made from the
/// end of the file backwards, each on the bytes that its reference spanned in
/// the file as read.
pub fn rewrite_values(source: &str, values: &Vec<YamlValue>, group: &str, custom: Custom) -> (r: Result<String, RewriteError>)
    requires
        rewrite_of_values(source@, values@, group@, custom) is Some,
    ensures
        match r {
            Ok(t) => rewrite_of_values(source@, values@, group@, custom) == Some(Ok::<Seq<char>, RewriteFailure>(t@)),
            Err(e) => rewrite_of_values(source@, values@, group@, custom) == Some(Err::<Seq<char>, RewriteFailure>(e.failure())),
        },
{
    match try_rewrite(source, values, group, custom) {
        Some(r) => r,
        None => Err(RewriteError::EditOutOfPlace),
    }
}

/// Rewrites the custom file `source` so that its algebra references of group
/// `group` select the layout and mode of `custom` (see [`rewrite_values`]).
/// Where a replacement cannot be made on character boundaries, it fails with
/// [`RewriteError::EditOutOfPlace`].
pub fn rewrite(source: &str, group: &str, custom: Custom) -> (r: Result<String, RewriteError>)
    ensures
        match r {
            Ok(text) => rewritten(source@, group@, custom) == Ok::<Seq<char>, RewriteFailure>(text@),
            Err(e) => rewritten(source@, group@, custom) == Err::<Seq<char>, RewriteFailure>(e.failure()),
        },
        rewrite_edits(source@, group@, custom).len() == 0 && r is Ok ==> r->Ok_0@ == source@,
{
    let document = match Document::read(source) {
        Ok(d) => d,
        Err(YamlError::Load(m)) => {
            return Err(RewriteError::Load(m));
        },
        Err(_) => {
            return Err(RewriteError::Empty);
        },
    };
    let values = custom_values(&document);
    proof {
        let scan = rewrite_scan(values@, reference_prefix(group@), custom);
        if scan.edits.len() == 0 {
            assert(byte_edits(source@, scan.edits) == Some(Seq::<EditView>::empty()));
            assert(sort_desc(Seq::<EditView>::empty()) =~= Seq::<EditView>::empty());
        }
    }
    match try_rewrite(source, &values, group, custom) {
        Some(r) => r,
        None => Err(RewriteError::EditOutOfPlace),
    }
}

/// A custom file that applying a configuration rewrites: the schema id that
/// names it, the group of its algebra references, and the configuration it gets.
pub struct ApplyTarget {
    pub schema_id: &'static str,
    pub group: &'static str,
    pub custom: Custom,
}

/// The custom files that applying `custom` to `schema` rewrites: the
/// edition's own, and the reverse-lookup schema's, which gets the layout only.
pub fn apply_targets(schema: Schema, custom: Custom) -> (r: Vec<ApplyTarget>)
    ensures
        r@.len() == 2,
        r@[0].schema_id@ == schema.spec_schema_id(),
        r@[0].group@ == schema.spec_code(),
        r@[0].custom == custom,
        r@[1].schema_id@ == "wanxiang_reverse"@,
        r@[1].group@ == "reverse"@,
        r@[1].custom == (Custom { pinyin: custom.pinyin, aux_mode: None }),
{
    vec![
        ApplyTarget { schema_id: schema.schema_id(), group: schema.code(), custom },
        ApplyTarget {
            schema_id: "wanxiang_reverse",
            group: "reverse",
            custom: Custom { pinyin: custom.pinyin, aux_mode: None },
        },
    ]
}

/// The file name `<id>.custom.yaml` of a schema's custom file.
pub fn custom_file_name(schema_id: &str) -> (r: String)
    ensures
        r@ == schema_id@ + ".custom.yaml"@,
{
    let mut name = String::from_str(schema_id);
    name.append(".custom.yaml");
    name
}

/// The index of the first edit of `sorted` that starts before `e`, or its length.
pub open spec fn first_lower(sorted: Seq<EditView>, e: EditView) -> int
    decreases sorted.len(),
{
    if sorted.len() == 0 {
        0
    } else if sorted[0].start < e.start {
        0
    } else {
        1 + first_lower(sorted.drop_first(), e)
    }
}

proof fn lemma_first_lower(sorted: Seq<EditView>, e: EditView)
    ensures
        0 <= first_lower(sorted, e) <= sorted.len(),
        forall|k: int| 0 <= k < first_lower(sorted, e) ==> !((#[trigger] sorted[k]).start < e.start),
        first_lower(sorted, e) < sorted.len() ==> sorted[first_lower(sorted, e)].start < e.start,
    decreases sorted.len(),
{
    if sorted.len() > 0 && !(sorted[0].start < e.start) {
        let t = sorted.drop_first();
        lemma_first_lower(t, e);
        assert forall|k: int| 0 <= k < first_lower(sorted, e) implies !((#[trigger] sorted[k]).start < e.start) by {
            if k > 0 {
                assert(sorted[k] == t[k - 1]);
            }
        }
    }
}

/// The edits are applied from the end of the file backwards: their order is
/// by descending start, and it holds every edit once.
pub proof fn lemma_sort_desc(edits: Seq<EditView>)
    ensures
        forall|i: int, j: int|
            0 <= i < j < sort_desc(edits).len() ==> (#[trigger] sort_desc(edits)[i]).start >= (#[trigger] sort_desc(edits)[j]).start,
        sort_desc(edits).to_multiset() == edits.to_multiset(),
    decreases edits.len(),
{
    broadcast use vstd::seq_lib::group_to_multiset_ensures;
    if edits.len() > 0 {
        let rest = edits.drop_last();
        let s = sort_desc(rest);
        let e = edits.last();
        lemma_sort_desc(rest);
        lemma_first_lower(s, e);
        let p = first_lower(s, e);
        lemma_insert_desc(s, e, p);
        let r = s.insert(p, e);
        assert(sort_desc(edits) == r);
        assert forall|i: int, j: int| 0 <= i < j < r.len() implies (#[trigger] r[i]).start >= (#[trigger] r[j]).start by {
            if i < p && j < p {
                assert(r[i] == s[i] && r[j] == s[j]);
            } else if i < p && j == p {
                assert(r[i] == s[i]);
            } else if i < p {
                assert(r[i] == s[i] && r[j] == s[j - 1]);
            } else if i == p {
                assert(r[j] == s[j - 1]);
                assert(s[p].start >= s[j - 1].start);
            } else {
                assert(r[i] == s[i - 1] && r[j] == s[j - 1]);
            }
        }
        vstd::seq_lib::to_multiset_insert(s, p, e);
        assert(edits =~= rest.push(e));
        vstd::seq_lib::to_multiset_build(rest, e);
    }
}

/// A custom file that lists algebra patches decides the configuration: the
/// schema file is then not needed and not read.
pub proof fn lemma_custom_file_decides(custom: YamlNode, schema: Option<YamlNode>)
    requires
        string_values(custom_fields(custom)).len() > 0,
    ensures
        detected(Some(custom), schema) == detected(Some(custom), None),
        detected(Some(custom), None) is Some,
{
}

/// Without a custom file, or when it lists no patches, the schema file decides.
pub proof fn lemma_schema_file_decides(custom: Option<YamlNode>, schema: YamlNode)
    requires
        custom matches Some(c) ==> string_values(custom_fields(c)).len() == 0,
    ensures
        detected(custom, Some(schema)) == Some(custom_of_names(reference_names(string_values(fields(schema, key_path(schema_path())))))),
{
}

/// The character edit `e` with its range as byte offsets of `t`.
pub open spec fn to_bytes(t: Seq<char>, e: EditView) -> EditView {
    EditView { start: utf8_len(t.take(e.start)), end: utf8_len(t.take(e.end)), text: e.text }
}

/// The character edits with their ranges as byte offsets of `t`.
pub open spec fn bytes_of(t: Seq<char>, edits: Seq<EditView>) -> Seq<EditView> {
    edits.map_values(|e: EditView| to_bytes(t, e))
}

/// Whether the edit's range lies within a text of `len` characters.
pub open spec fn within(e: EditView, len: int) -> bool {
    0 <= e.start <= e.end <= len
}

proof fn lemma_replace_char_range(t: Seq<char>, e: EditView)
    requires
        within(e, t.len() as int),
    ensures
        replace_bytes(t, to_bytes(t, e)) == Some(t.take(e.start) + e.text + t.skip(e.end)),
{
    lemma_utf8_len_grows(t, e.start, e.end);
    lemma_byte_index_of_offset(t, e.start);
    lemma_byte_index_of_offset(t, e.end);
}

/// Edits that fit end within the text and, after the first, within the start
/// of the one before.
proof fn lemma_fit_within(sorted: Seq<EditView>, len: int)
    requires
        edits_fit(sorted, len),
    ensures
        forall|k: int| 0 <= k < sorted.len() ==> within(#[trigger] sorted[k], len),
        forall|k: int| 1 <= k < sorted.len() ==> within(#[trigger] sorted[k], sorted[0].start),
    decreases sorted.len(),
{
    if sorted.len() > 1 {
        let rest = sorted.drop_first();
        assert(edits_fit(rest, sorted[0].start)) by {
            assert forall|k: int| 0 <= k < rest.len() implies 0 <= (#[trigger] rest[k]).start <= rest[k].end by {
                assert(rest[k] == sorted[k + 1]);
            }
            assert(rest[0] == sorted[1]);
            assert(sorted[0int + 1].end <= sorted[0].start);
            assert forall|k: int| 0 <= k < rest.len() - 1 implies (#[trigger] rest[k + 1]).end <= rest[k].start by {
                assert(rest[k] == sorted[k + 1] && rest[k + 1] == sorted[(k + 1) + 1]);
            }
        }
        lemma_fit_within(rest, sorted[0].start);
        assert forall|k: int| 1 <= k < sorted.len() implies within(#[trigger] sorted[k], sorted[0].start) by {
            assert(sorted[k] == rest[k - 1]);
        }
        assert forall|k: int| 0 <= k < sorted.len() implies within(#[trigger] sorted[k], len) by {
            if k > 0 {
                assert(sorted[k] == rest[k - 1]);
            }
        }
    }
}

/// Made by byte offsets from the end backwards, edits that do not overlap
/// give what the same edits by characters give.
proof fn lemma_replace_all_fit(t: Seq<char>, sorted: Seq<EditView>)
    requires
        edits_fit(sorted, t.len() as int),
    ensures
        replace_all(t, bytes_of(t, sorted)) == Some(splice(t, sorted)),
    decreases sorted.len(),
{
    lemma_fit_within(sorted, t.len() as int);
    if sorted.len() > 0 {
        let e = sorted[0];
        let rest = sorted.drop_first();
        let t1 = t.take(e.start) + e.text + t.skip(e.end);
        lemma_replace_char_range(t, e);
        assert(bytes_of(t, sorted)[0] == to_bytes(t, e));
        assert(edits_fit(rest, t1.len() as int)) by {
            assert forall|k: int| 0 <= k < rest.len() implies 0 <= (#[trigger] rest[k]).start <= rest[k].end by {
                assert(rest[k] == sorted[k + 1]);
            }
            if rest.len() > 0 {
                assert(rest[0] == sorted[1]);
                assert(sorted[0int + 1].end <= sorted[0].start);
            }
            assert forall|k: int| 0 <= k < rest.len() - 1 implies (#[trigger] rest[k + 1]).end <= rest[k].start by {
                assert(rest[k] == sorted[k + 1] && rest[k + 1] == sorted[(k + 1) + 1]);
            }
        }
        assert(bytes_of(t, sorted).drop_first() =~= bytes_of(t1, rest)) by {
            assert forall|k: int| 0 <= k < rest.len() implies bytes_of(t, sorted).drop_first()[k] == bytes_of(t1, rest)[k] by {
                let r = rest[k];
                assert(r == sorted[k + 1]);
                assert(within(sorted[k + 1], e.start));
                assert(t1.take(r.start) =~= t.take(r.start));
                assert(t1.take(r.end) =~= t.take(r.end));
            }
        }
        lemma_replace_all_fit(t1, rest);
    }
}

proof fn lemma_insert_desc_within(s: Seq<EditView>, e: EditView, len: int)
    requires
        forall|k: int| 0 <= k < s.len() ==> within(#[trigger] s[k], len),
        within(e, len),
    ensures
        forall|k: int| 0 <= k < insert_desc(s, e).len() ==> within(#[trigger] insert_desc(s, e)[k], len),
    decreases s.len(),
{
    if s.len() > 0 && !(s[0].start < e.start) {
        let t = s.drop_first();
        lemma_insert_desc_within(t, e, len);
        let r = insert_desc(s, e);
        assert forall|k: int| 0 <= k < r.len() implies within(#[trigger] r[k], len) by {
            if k > 0 {
                assert(r[k] == insert_desc(t, e)[k - 1]);
            }
        }
    }
}

proof fn lemma_sort_desc_within(es: Seq<EditView>, len: int)
    requires
        forall|k: int| 0 <= k < es.len() ==> within(#[trigger] es[k], len),
    ensures
        forall|k: int| 0 <= k < sort_desc(es).len() ==> within(#[trigger] sort_desc(es)[k], len),
    decreases es.len(),
{
    if es.len() > 0 {
        let d = es.drop_last();
        assert forall|k: int| 0 <= k < d.len() implies within(#[trigger] d[k], len) by {
            assert(d[k] == es[k]);
        }
        lemma_sort_desc_within(d, len);
        lemma_insert_desc_within(sort_desc(d), es.last(), len);
    }
}

proof fn lemma_insert_desc_bytes(t: Seq<char>, s: Seq<EditView>, e: EditView)
    requires
        forall|k: int| 0 <= k < s.len() ==> within(#[trigger] s[k], t.len() as int),
        within(e, t.len() as int),
    ensures
        insert_desc(bytes_of(t, s), to_bytes(t, e)) == bytes_of(t, insert_desc(s, e)),
    decreases s.len(),
{
    if s.len() == 0 {
        assert(bytes_of(t, seq![e]) =~= seq![to_bytes(t, e)]);
    } else {
        let b = bytes_of(t, s);
        assert(b[0] == to_bytes(t, s[0]));
        assert(within(s[0], t.len() as int));
        if s[0].start <= e.start {
            lemma_utf8_len_grows(t, s[0].start, e.start);
        } else {
            lemma_utf8_len_grows(t, e.start, s[0].start);
        }
        let r = s.drop_first();
        if s[0].start < e.start {
            assert(bytes_of(t, seq![e] + s) =~= seq![to_bytes(t, e)] + b);
        } else {
            assert forall|k: int| 0 <= k < r.len() implies within(#[trigger] r[k], t.len() as int) by {
                assert(r[k] == s[k + 1]);
            }
            lemma_insert_desc_bytes(t, r, e);
            assert(b.drop_first() =~= bytes_of(t, r));
            assert(bytes_of(t, seq![s[0]] + insert_desc(r, e)) =~= seq![b[0]] + bytes_of(t, insert_desc(r, e)));
        }
    }
}

proof fn lemma_sort_desc_bytes(t: Seq<char>, es: Seq<EditView>)
    requires
        forall|k: int| 0 <= k < es.len() ==> within(#[trigger] es[k], t.len() as int),
    ensures
        sort_desc(bytes_of(t, es)) == bytes_of(t, sort_desc(es)),
    decreases es.len(),
{
    if es.len() == 0 {
        assert(bytes_of(t, es) =~= Seq::<EditView>::empty());
        assert(bytes_of(t, Seq::<EditView>::empty()) =~= Seq::<EditView>::empty());
    } else {
        let d = es.drop_last();
        assert forall|k: int| 0 <= k < d.len() implies within(#[trigger] d[k], t.len() as int) by {
            assert(d[k] == es[k]);
        }
        lemma_sort_desc_bytes(t, d);
        assert(bytes_of(t, es).drop_last() =~= bytes_of(t, d));
        assert(bytes_of(t, es).last() == to_bytes(t, es.last()));
        lemma_sort_desc_within(d, t.len() as int);
        lemma_insert_desc_bytes(t, sort_desc(d), es.last());
    }
}

proof fn lemma_byte_edits_within(source: Seq<char>, es: Seq<EditView>)
    requires
        forall|k: int| 0 <= k < es.len() ==> within(#[trigger] es[k], source.len() as int),
        utf8_len(source) <= usize::MAX,
    ensures
        byte_edits(source, es) == Some(bytes_of(source, es)),
    decreases es.len(),
{
    if es.len() == 0 {
        assert(bytes_of(source, es) =~= Seq::<EditView>::empty());
    } else {
        let d = es.drop_last();
        assert forall|k: int| 0 <= k < d.len() implies within(#[trigger] d[k], source.len() as int) by {
            assert(d[k] == es[k]);
        }
        lemma_byte_edits_within(source, d);
        let e = es.last();
        assert(within(es[es.len() - 1], source.len() as int));
        assert(source.take(source.len() as int) =~= source);
        lemma_utf8_len_grows(source, e.start, source.len() as int);
        lemma_utf8_len_grows(source, e.end, source.len() as int);
        assert(bytes_of(source, es) =~= bytes_of(source, d).push(to_bytes(source, e)));
    }
}

/// Where the references to replace lie within the file and do not overlap,
/// rewriting succeeds and puts each replacement exactly in place of the
/// characters that its reference spans.
pub proof fn lemma_references_replaced_in_place(source: Seq<char>, values: Seq<YamlValue>, group: Seq<char>, custom: Custom)
    requires
        rewrite_scan(values, reference_prefix(group), custom).found_pinyin,
        custom.aux_mode is Some ==> rewrite_scan(values, reference_prefix(group), custom).found_aux_mode,
        edits_fit(sort_desc(rewrite_scan(values, reference_prefix(group), custom).edits), source.len() as int),
        utf8_len(source) <= usize::MAX,
    ensures
        rewrite_of_values(source, values, group, custom) == Some(Ok::<Seq<char>, RewriteFailure>(
            in_place(source, sort_desc(rewrite_scan(values, reference_prefix(group), custom).edits)),
        )),
{
    let edits = rewrite_scan(values, reference_prefix(group), custom).edits;
    let sorted = sort_desc(edits);
    let len = source.len() as int;
    lemma_fit_within(sorted, len);
    lemma_sort_desc(edits);
    assert forall|k: int| 0 <= k < edits.len() implies within(#[trigger] edits[k], len) by {
        broadcast use vstd::seq_lib::group_to_multiset_ensures;
        assert(edits.to_multiset().count(edits[k]) > 0);
        assert(sorted.to_multiset().count(edits[k]) > 0);
        assert(sorted.contains(edits[k]));
        let j = choose|j: int| 0 <= j < sorted.len() && sorted[j] == edits[k];
        assert(within(sorted[j], len));
    }
    lemma_byte_edits_within(source, edits);
    lemma_sort_desc_bytes(source, edits);
    lemma_replace_all_fit(source, sorted);
    lemma_edits_in_place(source, sorted);
}

/// `text` with each edit of `sorted` (by descending start) put in place of
/// the characters it covers in `text` itself.
pub open spec fn in_place(text: Seq<char>, sorted: Seq<EditView>) -> Seq<char>
    decreases sorted.len(),
{
    if sorted.len() == 0 {
        text
    } else {
        let e = sorted[0];
        in_place(text.take(e.start), sorted.drop_first()) + e.text + text.skip(e.end)
    }
}

proof fn lemma_splice_append(p: Seq<char>, q: Seq<char>, edits: Seq<EditView>)
    requires
        edits_fit(edits, p.len() as int),
    ensures
        splice(p + q, edits) == splice(p, edits) + q,
    decreases edits.len(),
{
    if edits.len() > 0 {
        let e = edits[0];
        let p2 = p.take(e.start) + e.text + p.skip(e.end);
        assert((p + q).take(e.start) =~= p.take(e.start));
        assert((p + q).skip(e.end) =~= p.skip(e.end) + q);
        assert((p + q).take(e.start) + e.text + (p + q).skip(e.end) =~= p2 + q);
        let rest = edits.drop_first();
        assert(edits_fit(rest, p2.len() as int)) by {
            assert forall|k: int| 0 <= k < rest.len() implies 0 <= (#[trigger] rest[k]).start <= rest[k].end by {
                assert(rest[k] == edits[k + 1]);
            }
            if rest.len() > 0 {
                assert(rest[0] == edits[1]);
                assert(edits[0int + 1].end <= edits[0].start);
            }
            assert forall|k: int| 0 <= k < rest.len() - 1 implies (#[trigger] rest[k + 1]).end <= rest[k].start by {
                assert(rest[k] == edits[k + 1] && rest[k + 1] == edits[(k + 1) + 1]);
            }
        }
        lemma_splice_append(p2, q, rest);
    } else {
    }
}

/// Applying the edits from the end backwards puts each one exactly in place of
/// the characters it covers in the unedited text: the earlier offsets do not shift.
pub proof fn lemma_edits_in_place(text: Seq<char>, sorted: Seq<EditView>)
    requires
        edits_fit(sorted, text.len() as int),
    ensures
        splice(text, sorted) == in_place(text, sorted),
    decreases sorted.len(),
{
    if sorted.len() > 0 {
        let e = sorted[0];
        let rest = sorted.drop_first();
        let head = text.take(e.start);
        assert(edits_fit(rest, head.len() as int)) by {
            assert forall|k: int| 0 <= k < rest.len() implies 0 <= (#[trigger] rest[k]).start <= rest[k].end by {
                assert(rest[k] == sorted[k + 1]);
            }
            if rest.len() > 0 {
                assert(rest[0] == sorted[1]);
                assert(sorted[0int + 1].end <= sorted[0].start);
            }
            assert forall|k: int| 0 <= k < rest.len() - 1 implies (#[trigger] rest[k + 1]).end <= rest[k].start by {
                assert(rest[k] == sorted[k + 1] && rest[k + 1] == sorted[(k + 1) + 1]);
            }
        }
        assert(head + e.text + text.skip(e.end) =~= head + (e.text + text.skip(e.end)));
        lemma_splice_append(head, e.text + text.skip(e.end), rest);
        lemma_edits_in_place(head, rest);
        assert(in_place(head, rest) + (e.text + text.skip(e.end)) =~= in_place(head, rest) + e.text + text.skip(e.end));
    }
}


proof fn lemma_first_named(layouts: Seq<Pinyin>, names: Seq<Seq<char>>)
    ensures
        match first_named(layouts, names) {
            Some(q) => exists|j: int|
                0 <= j < layouts.len() && layouts[j] == q && names.contains(q.spec_name()) && (forall|i: int|
                    0 <= i < j ==> !names.contains((#[trigger] layouts[i]).spec_name())),
            None => forall|i: int| 0 <= i < layouts.len() ==> !names.contains((#[trigger] layouts[i]).spec_name()),
        },
    decreases layouts.len(),
{
    if layouts.len() > 0 {
        let rest = layouts.drop_first();
        lemma_first_named(rest, names);
        if names.contains(layouts[0].spec_name()) {
            assert(layouts[0] == layouts[0]);
        } else {
            match first_named(rest, names) {
                Some(q) => {
                    let j = choose|j: int|
                        0 <= j < rest.len() && rest[j] == q && names.contains(q.spec_name()) && (forall|i: int|
                            0 <= i < j ==> !names.contains((#[trigger] rest[i]).spec_name()));
                    assert(layouts[j + 1] == q);
                    assert forall|i: int| 0 <= i < j + 1 implies !names.contains((#[trigger] layouts[i]).spec_name()) by {
                        if i > 0 {
                            assert(layouts[i] == rest[i - 1]);
                        }
                    }
                },
                None => {
                    assert forall|i: int| 0 <= i < layouts.len() implies !names.contains((#[trigger] layouts[i]).spec_name()) by {
                        if i > 0 {
                            assert(layouts[i] == rest[i - 1]);
                        }
                    }
                },
            }
        }
    }
}

/// The configuration read from the selected names: a layout is detected
/// whenever any layout's name is selected, and it is the first selected one
/// in the order the layouts are offered; none is detected when no layout's
/// name is selected. The indirect mode is detected where its name is
/// selected, else the direct mode where its name is, else none.
pub proof fn lemma_detected_configuration(names: Seq<Seq<char>>)
    ensures
        (exists|p: Pinyin| names.contains(p.spec_name())) ==> custom_of_names(names).pinyin is Some,
        (forall|p: Pinyin| !names.contains(p.spec_name())) ==> custom_of_names(names).pinyin is None,
        custom_of_names(names).pinyin matches Some(q) ==> names.contains(q.spec_name()) && exists|j: int|
            0 <= j < Pinyin::spec_all().len() && Pinyin::spec_all()[j] == q && (forall|i: int|
                0 <= i < j ==> !names.contains((#[trigger] Pinyin::spec_all()[i]).spec_name())),
        names.contains("间接辅助"@) ==> custom_of_names(names).aux_mode == Some(AuxMode::Indirect),
        !names.contains("间接辅助"@) && names.contains("直接辅助"@) ==> custom_of_names(names).aux_mode == Some(AuxMode::Direct),
        !names.contains("间接辅助"@) && !names.contains("直接辅助"@) ==> custom_of_names(names).aux_mode is None,
{
    lemma_first_named(Pinyin::spec_all(), names);
    if exists|p: Pinyin| names.contains(p.spec_name()) {
        let p = choose|p: Pinyin| names.contains(p.spec_name());
        crate::options::lemma_pinyin_listed(p);
        let k = choose|k: int| 0 <= k < Pinyin::spec_all().len() && Pinyin::spec_all()[k] == p;
        assert(names.contains(Pinyin::spec_all()[k].spec_name()));
    }
}

} // verus!
