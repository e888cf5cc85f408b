//! YAML documents as plain values, read through the `yaml_rust` loader.

use vstd::prelude::*;
use yaml_rust::{ScanError, Yaml, YamlLoader};

use crate::text::same_text;

verus! {

/// A YAML node held as plain values; one variant for each kind of node the
/// loader produces, hashes keeping their insertion order.
pub enum YamlValue {
    Real(String),
    Integer(i64),
    Str(String),
    Boolean(bool),
    Array(Vec<YamlValue>),
    Hash(Vec<(YamlValue, YamlValue)>),
    Alias(usize),
    Null,
    BadValue,
}

/// The mathematical model of a YAML node.
pub enum YamlNode {
    Real(Seq<char>),
    Integer(i64),
    Str(Seq<char>),
    Boolean(bool),
    Array(Seq<YamlNode>),
    Hash(Seq<(YamlNode, YamlNode)>),
    Alias(usize),
    Null,
    BadValue,
}

impl YamlValue {
    /// The model of this node.
    pub open spec fn node(self) -> YamlNode
        decreases self,
    {
        match self {
            YamlValue::Real(s) => YamlNode::Real(s@),
            YamlValue::Integer(i) => YamlNode::Integer(i),
            YamlValue::Str(s) => YamlNode::Str(s@),
            YamlValue::Boolean(b) => YamlNode::Boolean(b),
            YamlValue::Array(v) => YamlNode::Array(nodes_of(v@)),
            YamlValue::Hash(v) => YamlNode::Hash(pairs_of(v@)),
            YamlValue::Alias(a) => YamlNode::Alias(a),
            YamlValue::Null => YamlNode::Null,
            YamlValue::BadValue => YamlNode::BadValue,
        }
    }
}

/// The models of a sequence of nodes.
pub open spec fn nodes_of(s: Seq<YamlValue>) -> Seq<YamlNode>
    decreases s,
{
    if s.len() == 0 {
        Seq::empty()
    } else {
        nodes_of(s.subrange(0, s.len() - 1)).push(s[s.len() - 1].node())
    }
}

/// The models of a sequence of key-value pairs.
pub open spec fn pairs_of(s: Seq<(YamlValue, YamlValue)>) -> Seq<(YamlNode, YamlNode)>
    decreases s,
{
    if s.len() == 0 {
        Seq::empty()
    } else {
        pairs_of(s.subrange(0, s.len() - 1)).push(
            (s[s.len() - 1].0.node(), s[s.len() - 1].1.node()),
        )
    }
}

} // verus!

verus! {

/// The models of a sequence line up with its elements.
pub proof fn lemma_nodes_of(s: Seq<YamlValue>)
    ensures
        nodes_of(s).len() == s.len(),
        forall|i: int| 0 <= i < s.len() ==> #[trigger] nodes_of(s)[i] == s[i].node(),
    decreases s.len(),
{
    if s.len() > 0 {
        lemma_nodes_of(s.subrange(0, s.len() - 1));
    }
}

/// The models of a sequence of pairs line up with its elements.
pub proof fn lemma_pairs_of(s: Seq<(YamlValue, YamlValue)>)
    ensures
        pairs_of(s).len() == s.len(),
        forall|i: int|
            0 <= i < s.len() ==> #[trigger] pairs_of(s)[i] == (s[i].0.node(), s[i].1.node()),
    decreases s.len(),
{
    if s.len() > 0 {
        lemma_pairs_of(s.subrange(0, s.len() - 1));
    }
}

/// The value stored under the first key of `pairs` that is the string `key`.
pub open spec fn pairs_get(pairs: Seq<(YamlNode, YamlNode)>, key: Seq<char>) -> YamlNode
    decreases pairs.len(),
{
    if pairs.len() == 0 {
        YamlNode::BadValue
    } else if pairs[0].0 == YamlNode::Str(key) {
        pairs[0].1
    } else {
        pairs_get(pairs.drop_first(), key)
    }
}

/// Indexing a node by a string key: the value under that key of a hash, and
/// `BadValue` for a missing key or a node that is no hash.
pub open spec fn node_get(n: YamlNode, key: Seq<char>) -> YamlNode {
    match n {
        YamlNode::Hash(pairs) => pairs_get(pairs, key),
        _ => YamlNode::BadValue,
    }
}

/// The text of a string node.
pub open spec fn node_str(n: YamlNode) -> Option<Seq<char>> {
    match n {
        YamlNode::Str(s) => Some(s),
        _ => None,
    }
}

/// The text of a string node, or `default` for any other node.
pub open spec fn str_or(n: YamlNode, default: Seq<char>) -> Seq<char> {
    match n {
        YamlNode::Str(s) => s,
        _ => default,
    }
}

impl YamlValue {
    /// Whether this node is a string with the text `key`.
    pub fn is_str(&self, key: &str) -> (r: bool)
        ensures
            r == (self.node() == YamlNode::Str(key@)),
    {
        match self {
            YamlValue::Str(s) => same_text(s.as_str(), key),
            _ => false,
        }
    }

    /// The node under `key`, as indexing by a string gives it; `None` stands
    /// for `BadValue`.
    pub fn get(&self, key: &str) -> (r: Option<&YamlValue>)
        ensures
            match r {
                Some(v) => v.node() == node_get(self.node(), key@),
                None => node_get(self.node(), key@) == YamlNode::BadValue,
            },
    {
        match self {
            YamlValue::Hash(pairs) => {
                let ghost ps = pairs_of(pairs@);
                proof {
                    lemma_pairs_of(pairs@);
                    assert(ps.subrange(0, ps.len() as int) =~= ps);
                    assert(self.node() == YamlNode::Hash(ps));
                }
                let mut i: usize = 0;
                while i < pairs.len()
                    invariant
                        ps == pairs_of(pairs@),
                        self.node() == YamlNode::Hash(ps),
                        ps.len() == pairs@.len(),
                        forall|k: int|
                            0 <= k < pairs@.len() ==> #[trigger] ps[k] == (
                                pairs@[k].0.node(),
                                pairs@[k].1.node(),
                            ),
                        i <= pairs.len(),
                        pairs_get(ps, key@) == pairs_get(ps.subrange(i as int, ps.len() as int), key@),
                    decreases pairs.len() - i,
                {
                    let ghost rest = ps.subrange(i as int, ps.len() as int);
                    if pairs[i].0.is_str(key) {
                        assert(rest[0] == ps[i as int]);
                        assert(pairs_get(rest, key@) == rest[0].1);
                        return Some(&pairs[i].1);
                    }
                    assert(rest.drop_first() =~= ps.subrange(i + 1, ps.len() as int));
                    i = i + 1;
                }
                None
            },
            _ => None,
        }
    }

    /// The text of this node when it is a string.
    pub fn as_str(&self) -> (r: Option<&str>)
        ensures
            match r {
                Some(s) => node_str(self.node()) == Some(s@),
                None => node_str(self.node()) is None,
            },
    {
        match self {
            YamlValue::Str(s) => Some(s.as_str()),
            _ => None,
        }
    }
}

} // verus!

verus! {

/// Declares `yaml_rust::Yaml`, the loader's node type.
#[verifier::external_type_specification]
#[verifier::external_body]
pub struct ExYaml(Yaml);

/// Declares `yaml_rust::ScanError`, the loader's error.
#[verifier::external_type_specification]
#[verifier::external_body]
pub struct ExScanError(ScanError);

/// The documents that `YamlLoader::load_from_str` reads from a source text,
/// or `None` where it reports a scan error.
pub uninterp spec fn yaml_documents(source: Seq<char>) -> Option<Seq<YamlNode>>;

/// Calls `YamlLoader::load_from_str` and holds each document it returns as a
/// `YamlValue`. The contract claims only that the outcome is the named
/// `yaml_documents` of the source text: an error exactly where the name has no
/// documents, and otherwise exactly those documents.
#[verifier::external_body]
pub(crate) fn load_documents(source: &str) -> (r: Result<Vec<YamlValue>, ScanError>)
    ensures
        match r {
            Ok(docs) => yaml_documents(source@) == Some(nodes_of(docs@)),
            Err(_) => yaml_documents(source@) is None,
        },
{
    YamlLoader::load_from_str(source).map(|docs| docs.iter().map(value_of).collect())
}

/// Converts one `yaml_rust::Yaml` node, variant for variant, moving each field
/// over unchanged; it serves `load_documents` alone, whose contract covers it.
#[verifier::external_body]
fn value_of(y: &Yaml) -> YamlValue {
    match y {
        Yaml::Real(s) => YamlValue::Real(s.clone()),
        Yaml::Integer(i) => YamlValue::Integer(*i),
        Yaml::String(s) => YamlValue::Str(s.clone()),
        Yaml::Boolean(b) => YamlValue::Boolean(*b),
        Yaml::Array(a) => YamlValue::Array(a.iter().map(value_of).collect()),
        Yaml::Hash(h) => YamlValue::Hash(h.iter().map(|(k, v)| (value_of(k), value_of(v))).collect()),
        Yaml::Alias(n) => YamlValue::Alias(*n),
        Yaml::Null => YamlValue::Null,
        Yaml::BadValue => YamlValue::BadValue,
    }
}

} // verus!
