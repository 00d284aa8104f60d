//! YAML documents: loaded by `saphyr`, then read by path.

use vstd::prelude::*;
use saphyr::{LoadableYamlNode, MarkedYamlOwned, ScalarOwned, YamlDataOwned};
use vstd::string::*;
use crate::text::{chars_equal, chars_of};

verus! {

/// A resolved YAML scalar. A floating-point scalar is kept as the text that
/// its value displays as.
pub enum YamlScalar {
    Null,
    Bool(bool),
    Int(i64),
    Float(String),
    Str(String),
}

/// A scalar node and the character range `[start, end)` of the source that it
/// was read from.
pub struct YamlValue {
    pub scalar: YamlScalar,
    pub start: usize,
    pub end: usize,
}

/// A YAML node. Mapping entries keep the order of the source; tagged nodes,
/// aliases and unresolved scalars are `Other`.
pub enum YamlNode {
    Value(YamlValue),
    Sequence(Vec<YamlNode>),
    Mapping(Vec<(YamlNode, YamlNode)>),
    Other,
}

/// A loaded YAML document: the first document of its source.
pub struct Document {
    pub root: YamlNode,
}

/// Why a YAML document cannot be used.
pub enum YamlError {
    /// The source is not valid YAML; the loader's message.
    Load(String),
    /// The source holds no document.
    Empty,
    /// No value stands at the path, written with `.` between its keys.
    MissingField(String),
}

/// What `saphyr` loads from `source` (`MarkedYamlOwned::load_from_str`),
/// converted node by node: the text of the loader's error where loading
/// fails, `Ok(None)` where the source holds no document, else the first
/// document.
pub uninterp spec fn yaml_document(source: Seq<char>) -> Result<Option<YamlNode>, Seq<char>>;

/// The node that `saphyr` makes of `text` as a key
/// (`MarkedYamlOwned::value_from_str`), converted.
pub uninterp spec fn yaml_key_node(text: Seq<char>) -> YamlNode;

/// `saphyr`'s annotated YAML node, carried opaquely.
#[verifier::external_type_specification]
#[verifier::external_body]
pub struct ExMarkedYamlOwned(MarkedYamlOwned);

/// `saphyr`'s resolved scalar, carried opaquely.
#[verifier::external_type_specification]
#[verifier::external_body]
pub struct ExScalarOwned(ScalarOwned);

impl YamlScalar {
    /// `saphyr`'s scalar as a `YamlScalar`: one arm per variant, the value
    /// moved over; a floating-point value as the text it displays as.
    #[verifier::external_body]
    fn from_owned(scalar: &ScalarOwned) -> YamlScalar {
        match scalar {
            ScalarOwned::Null => YamlScalar::Null,
            ScalarOwned::Boolean(b) => YamlScalar::Bool(*b),
            ScalarOwned::Integer(i) => YamlScalar::Int(*i),
            ScalarOwned::FloatingPoint(f) => YamlScalar::Float(f.to_string()),
            ScalarOwned::String(s) => YamlScalar::Str(s.clone()),
        }
    }
}

impl YamlNode {
    /// `saphyr`'s node as a `YamlNode`: one arm per variant, the fields moved
    /// over, the children converted in their order.
    #[verifier::external_body]
    fn from_marked(node: &MarkedYamlOwned) -> YamlNode {
        match &node.data {
            YamlDataOwned::Value(s) => YamlNode::Value(YamlValue {
                scalar: YamlScalar::from_owned(s),
                start: node.span.start.index(),
                end: node.span.end.index(),
            }),
            YamlDataOwned::Sequence(items) => YamlNode::Sequence(items.iter().map(Self::from_marked).collect()),
            YamlDataOwned::Mapping(m) => YamlNode::Mapping(m.iter().map(|(k, v)| (Self::from_marked(k), Self::from_marked(v))).collect()),
            _ => YamlNode::Other,
        }
    }
}

/// `MarkedYamlOwned::load_from_str(source)`: the first document, converted,
/// or the loader's message. The contract names the result.
#[verifier::external_body]
fn load_first_document(source: &str) -> (r: Result<Option<YamlNode>, String>)
    ensures
        match r {
            Ok(d) => yaml_document(source@) == Ok::<Option<YamlNode>, Seq<char>>(d),
            Err(m) => yaml_document(source@) == Err::<Option<YamlNode>, Seq<char>>(m@),
        },
{
    MarkedYamlOwned::load_from_str(source).map(|docs| docs.first().map(YamlNode::from_marked)).map_err(|e| e.to_string())
}

/// `MarkedYamlOwned::value_from_str(text)`, converted: the node that a
/// mapping key must equal to be found by `text`. The contract names the result.
#[verifier::external_body]
fn key_node(text: &str) -> (r: YamlNode)
    ensures
        r == yaml_key_node(text@),
{
    YamlNode::from_marked(&MarkedYamlOwned::value_from_str(text))
}

/// Whether a floating-point scalar displays as zero: `0` or `-0`.
pub open spec fn is_zero_text(t: Seq<char>) -> bool {
    t == "0"@ || t == "-0"@
}

/// Whether two scalars are equal. Floating-point values are equal where they
/// display alike, and the two zeros are equal.
pub open spec fn same_scalar(a: YamlScalar, b: YamlScalar) -> bool {
    match (a, b) {
        (YamlScalar::Null, YamlScalar::Null) => true,
        (YamlScalar::Bool(x), YamlScalar::Bool(y)) => x == y,
        (YamlScalar::Int(x), YamlScalar::Int(y)) => x == y,
        (YamlScalar::Float(x), YamlScalar::Float(y)) => x@ == y@ || (is_zero_text(x@) && is_zero_text(y@)),
        (YamlScalar::Str(x), YamlScalar::Str(y)) => x@ == y@,
        _ => false,
    }
}

/// Whether a mapping key is the scalar node `key`.
pub open spec fn key_matches(node: YamlNode, key: YamlNode) -> bool {
    match (node, key) {
        (YamlNode::Value(a), YamlNode::Value(b)) => same_scalar(a.scalar, b.scalar),
        _ => false,
    }
}

/// The scalar values found at `path` under `node`: a mapping follows the
/// entry whose key is the path's first key, a sequence collects what each of
/// its items gives for the same path, and a scalar is found where the path
/// ends.
pub open spec fn fields(node: YamlNode, path: Seq<YamlNode>) -> Seq<YamlValue>
    decreases node, 2int,
{
    match node {
        YamlNode::Value(v) => if path.len() == 0 {
            seq![v]
        } else {
            Seq::empty()
        },
        YamlNode::Sequence(items) => fields_of_items(items@, path),
        YamlNode::Mapping(entries) => if path.len() == 0 {
            Seq::empty()
        } else {
            fields_at_key(entries@, path[0], path.drop_first())
        },
        YamlNode::Other => Seq::empty(),
    }
}

/// What the items give for `path`, in their order.
pub open spec fn fields_of_items(items: Seq<YamlNode>, path: Seq<YamlNode>) -> Seq<YamlValue>
    decreases items, 1int,
{
    if items.len() == 0 {
        Seq::empty()
    } else {
        fields_of_items(items.subrange(0, items.len() - 1), path) + fields(
            items[items.len() - 1],
            path,
        )
    }
}

/// What the value of the first entry whose key is `key` gives for `rest`.
pub open spec fn fields_at_key(entries: Seq<(YamlNode, YamlNode)>, key: YamlNode, rest: Seq<YamlNode>) -> Seq<YamlValue>
    decreases entries, 0int,
{
    if entries.len() == 0 {
        Seq::empty()
    } else if key_matches(entries[0].0, key) {
        fields(entries[0].1, rest)
    } else {
        fields_at_key(entries.subrange(1, entries.len() as int), key, rest)
    }
}

/// The keys of `path` as the nodes that mapping keys must equal.
pub open spec fn key_path(path: Seq<&str>) -> Seq<YamlNode> {
    path.map_values(|k: &str| yaml_key_node(k@))
}

/// The text of a string scalar.
pub open spec fn str_value(v: YamlValue) -> Option<Seq<char>> {
    match v.scalar {
        YamlScalar::Str(s) => Some(s@),
        _ => None,
    }
}

/// The value of a boolean scalar.
pub open spec fn bool_value(v: YamlValue) -> Option<bool> {
    match v.scalar {
        YamlScalar::Bool(b) => Some(b),
        _ => None,
    }
}

/// The keys of `path` joined with `.`.
pub open spec fn joined(path: Seq<&str>) -> Seq<char>
    decreases path.len(),
{
    if path.len() == 0 {
        Seq::empty()
    } else if path.len() == 1 {
        path[0]@
    } else {
        joined(path.drop_last()) + "."@ + path.last()@
    }
}

impl YamlScalar {
    /// A copy of the scalar.
    pub fn copy(&self) -> (r: YamlScalar)
        ensures
            r == *self,
    {
        match self {
            YamlScalar::Null => YamlScalar::Null,
            YamlScalar::Bool(b) => YamlScalar::Bool(*b),
            YamlScalar::Int(i) => YamlScalar::Int(*i),
            YamlScalar::Float(f) => YamlScalar::Float(f.clone()),
            YamlScalar::Str(s) => YamlScalar::Str(s.clone()),
        }
    }

    /// Whether the two scalars are equal.
    pub fn equals(&self, other: &YamlScalar) -> (r: bool)
        ensures
            r == same_scalar(*self, *other),
    {
        match (self, other) {
            (YamlScalar::Null, YamlScalar::Null) => true,
            (YamlScalar::Bool(x), YamlScalar::Bool(y)) => *x == *y,
            (YamlScalar::Int(x), YamlScalar::Int(y)) => *x == *y,
            (YamlScalar::Float(x), YamlScalar::Float(y)) => x.eq(y) || (zero_text(x.as_str())
                && zero_text(y.as_str())),
            (YamlScalar::Str(x), YamlScalar::Str(y)) => x.eq(y),
            _ => false,
        }
    }
}

/// Whether the text of a floating-point scalar is `0` or `-0`.
fn zero_text(t: &str) -> (r: bool)
    ensures
        r == is_zero_text(t@),
{
    let c = chars_of(t);
    chars_equal(&c, &chars_of("0")) || chars_equal(&c, &chars_of("-0"))
}

impl YamlValue {
    /// A copy of the value.
    pub fn copy(&self) -> (r: YamlValue)
        ensures
            r == *self,
    {
        YamlValue { scalar: self.scalar.copy(), start: self.start, end: self.end }
    }

    /// The text of a string scalar.
    pub fn as_str(&self) -> (r: Option<&str>)
        ensures
            match r {
                Some(s) => str_value(*self) == Some(s@),
                None => str_value(*self) is None,
            },
    {
        match &self.scalar {
            YamlScalar::Str(s) => Some(s.as_str()),
            _ => None,
        }
    }

    /// The value of a boolean scalar.
    pub fn as_bool(&self) -> (r: Option<bool>)
        ensures
            r == bool_value(*self),
    {
        match &self.scalar {
            YamlScalar::Bool(b) => Some(*b),
            _ => None,
        }
    }
}

/// Whether the mapping key `node` is the scalar node `key`.
fn key_equals(node: &YamlNode, key: &YamlNode) -> (r: bool)
    ensures
        r == key_matches(*node, *key),
{
    match (node, key) {
        (YamlNode::Value(a), YamlNode::Value(b)) => a.scalar.equals(&b.scalar),
        _ => false,
    }
}

/// Appends to `out` the values found at `path[depth..]` under `node`.
fn collect(node: &YamlNode, path: &Vec<YamlNode>, depth: usize, out: &mut Vec<YamlValue>)
    requires
        depth <= path@.len(),
    ensures
        final(out)@ == old(out)@ + fields(*node, path@.skip(depth as int)),
    decreases node,
{
    let ghost rest = path@.skip(depth as int);
    match node {
        YamlNode::Value(v) => {
            if depth == path.len() {
                out.push(v.copy());
                assert(out@ =~= old(out)@ + seq![*v]);
            } else {
                assert(out@ =~= old(out)@ + Seq::<YamlValue>::empty());
            }
        },
        YamlNode::Sequence(items) => {
            let mut i: usize = 0;
            assert(out@ =~= old(out)@ + fields_of_items(items@.take(0), rest)) by {
                assert(items@.take(0) =~= Seq::<YamlNode>::empty());
            }
            while i < items.len()
                invariant
                    i <= items@.len(),
                    *node == YamlNode::Sequence(*items),
                    depth <= path@.len(),
                    rest == path@.skip(depth as int),
                    out@ == old(out)@ + fields_of_items(items@.take(i as int), rest),
                decreases items.len() - i,
            {
                proof {
                    assert(*node is Sequence);
                    assert(decreases_to!(*node => (*node)->Sequence_0));
                    assert(decreases_to!(*items => items@));
                    assert(decreases_to!(items@ => items@[i as int]));
                }
                let ghost before = out@;
                collect(&items[i], path, depth, out);
                proof {
                    let t = items@.take(i + 1);
                    assert(t.subrange(0, t.len() - 1) =~= items@.take(i as int));
                    assert(t[t.len() - 1] == items@[i as int]);
                    assert(out@ =~= old(out)@ + fields_of_items(t, rest));
                }
                i = i + 1;
            }
            assert(items@.take(items@.len() as int) =~= items@);
        },
        YamlNode::Mapping(entries) => {
            if depth == path.len() {
                assert(out@ =~= old(out)@ + Seq::<YamlValue>::empty());
                return;
            }
            let key = &path[depth];
            let next = depth + 1;
            let ghost after = path@.skip(depth + 1);
            assert(rest.drop_first() =~= after);
            let mut i: usize = 0;
            assert(entries@.subrange(0, entries@.len() as int) =~= entries@);
            while i < entries.len()
                invariant
                    i <= entries@.len(),
                    *node == YamlNode::Mapping(*entries),
                    depth < path@.len(),
                    *key == path@[depth as int],
                    next == depth + 1,
                    rest == path@.skip(depth as int),
                    after == path@.skip(depth + 1),
                    rest.drop_first() == after,
                    out@ == old(out)@,
                    fields_at_key(entries@, *key, after) == fields_at_key(entries@.subrange(i as int, entries@.len() as int), *key, after),
                decreases entries.len() - i,
            {
                let ghost tail = entries@.subrange(i as int, entries@.len() as int);
                if key_equals(&entries[i].0, key) {
                    proof {
                        assert(tail[0] == entries@[i as int]);
                        assert(decreases_to!(*node => (*node)->Mapping_0));
                        assert(decreases_to!(*entries => entries@));
                        assert(decreases_to!(entries@ => entries@[i as int]));
                        assert(decreases_to!(entries@[i as int] => entries@[i as int].1));
                    }
                    collect(&entries[i].1, path, next, out);
                    proof {
                        assert(rest[0] == *key);
                        assert(fields(*node, rest) == fields_at_key(entries@, *key, after));
                        assert(fields_at_key(tail, *key, after) == fields(entries@[i as int].1, after));
                    }
                    return;
                }
                assert(tail.subrange(1, tail.len() as int) =~= entries@.subrange(i + 1, entries@.len() as int));
                i = i + 1;
            }
        },
        YamlNode::Other => {
            assert(out@ =~= old(out)@ + Seq::<YamlValue>::empty());
        },
    }
}

impl Document {
    /// Loads the first document of `source`.
    pub fn read(source: &str) -> (r: Result<Document, YamlError>)
        ensures
            match r {
                Ok(d) => yaml_document(source@) == Ok::<Option<YamlNode>, Seq<char>>(Some(d.root)),
                Err(YamlError::Load(m)) => yaml_document(source@) == Err::<Option<YamlNode>, Seq<char>>(m@),
                Err(YamlError::Empty) => yaml_document(source@) == Ok::<Option<YamlNode>, Seq<char>>(None),
                Err(YamlError::MissingField(_)) => false,
            },
    {
        match load_first_document(source) {
            Ok(Some(root)) => Ok(Document { root }),
            Ok(None) => Err(YamlError::Empty),
            Err(message) => Err(YamlError::Load(message)),
        }
    }

    /// The scalar values at `path`, in document order.
    pub fn values(&self, path: &[&str]) -> (r: Vec<YamlValue>)
        ensures
            r@ == fields(self.root, key_path(path@)),
    {
        let mut keys: Vec<YamlNode> = Vec::new();
        let mut i: usize = 0;
        while i < path.len()
            invariant
                i <= path@.len(),
                keys@ == key_path(path@).take(i as int),
            decreases path.len() - i,
        {
            keys.push(key_node(path[i]));
            i = i + 1;
            assert(keys@ =~= key_path(path@).take(i as int));
        }
        assert(keys@.skip(0) =~= key_path(path@));
        let mut out: Vec<YamlValue> = Vec::new();
        collect(&self.root, &keys, 0, &mut out);
        assert(out@ =~= fields(self.root, key_path(path@)));
        out
    }

    /// The first scalar value at `path`.
    pub fn required(&self, path: &[&str]) -> (r: Result<YamlValue, YamlError>)
        ensures
            match r {
                Ok(v) => fields(self.root, key_path(path@)).len() > 0 && v == fields(self.root, key_path(path@))[0],
                Err(YamlError::MissingField(p)) => fields(self.root, key_path(path@)).len() == 0 && p@ == joined(path@),
                Err(_) => false,
            },
    {
        let mut found = self.values(path);
        if found.len() > 0 {
            Ok(found.remove(0))
        } else {
            Err(YamlError::MissingField(join_path(path)))
        }
    }
}

/// The keys of `path` joined with `.`.
fn join_path(path: &[&str]) -> (r: String)
    ensures
        r@ == joined(path@),
{
    let mut r = String::new();
    let mut i: usize = 0;
    while i < path.len()
        invariant
            i <= path@.len(),
            r@ == joined(path@.take(i as int)),
        decreases path.len() - i,
    {
        let ghost t = path@.take(i + 1);
        if i > 0 {
            r.append(".");
        }
        r.append(path[i]);
        proof {
            assert(t.drop_last() =~= path@.take(i as int));
            assert(t.last() == path@[i as int]);
            if i == 0 {
                assert(r@ =~= joined(t));
            }
        }
        i = i + 1;
    }
    assert(path@.take(path@.len() as int) =~= path@);
    r
}

} // verus!
