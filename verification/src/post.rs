//! Posts: how a post is read from its source, and what its metadata says.

use vstd::prelude::*;
use vstd::string::*;
use vstd::utf8::*;

use crate::config::{found_node, text_or};
use crate::frontmatter::{frontmatter_body, frontmatter_splits, frontmatter_yaml, split_frontmatter};
use crate::generate::{commonmark_html, Generator};
use crate::yaml::{
    lemma_nodes_of, lemma_pairs_of, load_documents, node_get, node_str, nodes_of, pairs_of, str_or,
    yaml_documents, YamlNode, YamlValue,
};

verus! {

/// The metadata of a post: each key with its text values.
pub type InfoView = Seq<(Seq<char>, Seq<Seq<char>>)>;

/// A post ready for its template.
pub struct Post {
    pub title_slug: String,
    pub content: String,
    pub date: String,
    pub order: String,
    pub info: Vec<(String, Vec<String>)>,
}

/// The model of a post.
pub struct PostView {
    pub title_slug: Seq<char>,
    pub content: Seq<char>,
    pub date: Seq<char>,
    pub order: Seq<char>,
    pub info: InfoView,
}

/// The model of one metadata entry.
pub open spec fn info_entry_view(e: (String, Vec<String>)) -> (Seq<char>, Seq<Seq<char>>) {
    (e.0@, e.1@.map_values(|v: String| v@))
}

/// The model of a post's metadata.
pub open spec fn info_view(info: Seq<(String, Vec<String>)>) -> InfoView {
    info.map_values(|e: (String, Vec<String>)| info_entry_view(e))
}

impl View for Post {
    type V = PostView;

    open spec fn view(&self) -> PostView {
        PostView {
            title_slug: self.title_slug@,
            content: self.content@,
            date: self.date@,
            order: self.order@,
            info: info_view(self.info@),
        }
    }
}

/// Why a post source yields no post.
#[derive(Debug, PartialEq, Eq, Clone, Copy)]
pub enum PostError {
    /// The source has no metadata fence pair that can be cut out.
    MalformedSource,
    /// The metadata is no YAML.
    Syntax,
    /// The metadata holds no YAML document.
    NoDocument,
    /// The metadata is no mapping.
    NotAMapping,
    /// A metadata key is no text.
    NonTextKey,
    /// A metadata value is neither a text nor a list of texts.
    NonTextValue,
    /// The metadata has no `date` text.
    MissingDate,
}

/// Where a key first stands in the metadata.
pub open spec fn info_find(info: InfoView, key: Seq<char>) -> Option<int>
    decreases info.len(),
{
    if info.len() == 0 {
        None
    } else if info[0].0 == key {
        Some(0)
    } else {
        match info_find(info.drop_first(), key) {
            Some(i) => Some(i + 1),
            None => None,
        }
    }
}

/// Setting a key: its entry is replaced where it stands, or added at the end.
pub open spec fn info_insert(info: InfoView, key: Seq<char>, vals: Seq<Seq<char>>) -> InfoView {
    match info_find(info, key) {
        Some(i) => info.update(i, (key, vals)),
        None => info.push((key, vals)),
    }
}

/// The texts of a metadata value: each item of a list, or the one text.
pub open spec fn values_of(v: YamlNode) -> Option<Seq<Seq<char>>> {
    match v {
        YamlNode::Array(items) => texts_of(items),
        YamlNode::Str(s) => Some(seq![s]),
        _ => None,
    }
}

/// The texts of a list of nodes, when every node is a text.
pub open spec fn texts_of(items: Seq<YamlNode>) -> Option<Seq<Seq<char>>>
    decreases items.len(),
{
    if items.len() == 0 {
        Some(Seq::empty())
    } else {
        match (texts_of(items.drop_last()), node_str(items.last())) {
            (Some(ts), Some(t)) => Some(ts.push(t)),
            _ => None,
        }
    }
}

/// Whether a key is one that the metadata keeps apart from the other entries.
pub open spec fn is_reserved_key(k: Seq<char>) -> bool {
    k == "order"@ || k == "date"@
}

/// The metadata that the keys `keys` of the document `doc` give, key after key.
pub open spec fn info_from(doc: YamlNode, keys: Seq<YamlNode>) -> Result<InfoView, PostError>
    decreases keys.len(),
{
    if keys.len() == 0 {
        Ok(Seq::empty())
    } else {
        match info_from(doc, keys.drop_last()) {
            Err(e) => Err(e),
            Ok(info) => match node_str(keys.last()) {
                None => Err(PostError::NonTextKey),
                Some(k) => if is_reserved_key(k) {
                    Ok(info)
                } else {
                    match values_of(node_get(doc, k)) {
                        None => Err(PostError::NonTextValue),
                        Some(vals) => Ok(info_insert(info, k, vals)),
                    }
                },
            },
        }
    }
}

/// The keys of a mapping, in order.
pub open spec fn keys_of(pairs: Seq<(YamlNode, YamlNode)>) -> Seq<YamlNode> {
    pairs.map_values(|p: (YamlNode, YamlNode)| p.0)
}

/// The post that the metadata documents and the rendered content describe.
pub open spec fn post_from_documents(name: Seq<char>, html: Seq<char>, docs: Seq<YamlNode>) -> Result<
    PostView,
    PostError,
> {
    if docs.len() == 0 {
        Err(PostError::NoDocument)
    } else {
        let doc = docs[0];
        match doc {
            YamlNode::Hash(pairs) => match info_from(doc, keys_of(pairs)) {
                Err(e) => Err(e),
                Ok(info) => match node_str(node_get(doc, "date"@)) {
                    None => Err(PostError::MissingDate),
                    Some(date) => Ok(
                        PostView {
                            title_slug: name,
                            content: html,
                            date,
                            order: str_or(node_get(doc, "order"@), "9999.0"@),
                            info,
                        },
                    ),
                },
            },
            _ => Err(PostError::NotAMapping),
        }
    }
}

/// The post that a source text describes.
pub open spec fn post_from_source(name: Seq<char>, source: Seq<u8>) -> Result<PostView, PostError> {
    if !frontmatter_splits(source) {
        Err(PostError::MalformedSource)
    } else {
        match yaml_documents(decode_utf8(frontmatter_yaml(source))) {
            None => Err(PostError::Syntax),
            Some(docs) => post_from_documents(
                name,
                commonmark_html(decode_utf8(frontmatter_body(source))),
                docs,
            ),
        }
    }
}

} // verus!

verus! {

/// `info_find` reports the first entry with the key.
proof fn lemma_info_find(info: InfoView, key: Seq<char>, i: int)
    requires
        0 <= i <= info.len(),
        forall|j: int| 0 <= j < i ==> info[j].0 != key,
    ensures
        i < info.len() && info[i].0 == key ==> info_find(info, key) == Some(i),
        i == info.len() ==> info_find(info, key) is None,
    decreases i,
{
    if i > 0 {
        lemma_info_find(info.drop_first(), key, i - 1);
    }
}

/// Sets `key` to `vals` in the metadata: replaces its entry or appends one.
fn info_set(info: &mut Vec<(String, Vec<String>)>, key: String, vals: Vec<String>)
    ensures
        info_view(final(info)@) == info_insert(info_view(old(info)@), key@, vals@.map_values(
            |v: String| v@,
        )),
{
    let ghost old_view = info_view(info@);
    let mut i: usize = 0;
    while i < info.len()
        invariant
            info@ == old(info)@,
            old_view == info_view(info@),
            i <= info@.len(),
            forall|j: int| 0 <= j < i ==> old_view[j].0 != key@,
        decreases info@.len() - i,
    {
        if info[i].0 == key {
            proof {
                lemma_info_find(old_view, key@, i as int);
            }
            let ghost entry = (key, vals);
            info.set(i, (key, vals));
            assert(info_view(info@) =~= old_view.update(i as int, info_entry_view(entry)));
            return;
        }
        i = i + 1;
    }
    proof {
        lemma_info_find(old_view, key@, i as int);
    }
    let ghost entry = (key, vals);
    info.push((key, vals));
    assert(info_view(info@) =~= old_view.push(info_entry_view(entry)));
}

proof fn lemma_texts_prefix_none(items: Seq<YamlNode>, k: int)
    requires
        0 <= k <= items.len(),
        texts_of(items.subrange(0, k)) is None,
    ensures
        texts_of(items) is None,
    decreases items.len(),
{
    if k == items.len() {
        assert(items.subrange(0, k) =~= items);
    } else {
        assert(items.drop_last().subrange(0, k) =~= items.subrange(0, k));
        lemma_texts_prefix_none(items.drop_last(), k);
    }
}

/// The texts of a metadata value.
fn text_values(found: Option<&YamlValue>) -> (r: Option<Vec<String>>)
    ensures
        match r {
            Some(v) => values_of(found_node(found)) == Some(v@.map_values(|s: String| s@)),
            None => values_of(found_node(found)) is None,
        },
{
    match found {
        Some(YamlValue::Str(s)) => {
            let mut v: Vec<String> = Vec::new();
            v.push(s.clone());
            assert(v@.map_values(|s: String| s@) =~= seq![s@]);
            Some(v)
        },
        Some(YamlValue::Array(items)) => {
            let ghost ns = nodes_of(items@);
            proof {
                lemma_nodes_of(items@);
                assert(ns.subrange(0, 0) =~= Seq::<YamlNode>::empty());
                assert(found_node(found) == YamlNode::Array(ns));
            }
            let mut out: Vec<String> = Vec::new();
            let mut i: usize = 0;
            while i < items.len()
                invariant
                    ns == nodes_of(items@),
                    ns.len() == items@.len(),
                    found_node(found) == YamlNode::Array(ns),
                    out@.len() == i,
                    forall|k: int| 0 <= k < items@.len() ==> #[trigger] ns[k] == items@[k].node(),
                    i <= items.len(),
                    texts_of(ns.subrange(0, i as int)) == Some(out@.map_values(|s: String| s@)),
                decreases items.len() - i,
            {
                let ghost before = out@.map_values(|s: String| s@);
                assert(ns.subrange(0, i + 1).drop_last() =~= ns.subrange(0, i as int));
                assert(ns.subrange(0, i + 1).last() == items@[i as int].node());
                match items[i].as_str() {
                    Some(t) => {
                        out.push(String::from_str(t));
                        assert(out@.map_values(|s: String| s@) =~= before.push(t@));
                    },
                    None => {
                        proof {
                            lemma_texts_prefix_none(ns, i + 1);
                        }
                        return None;
                    },
                }
                i = i + 1;
            }
            assert(ns.subrange(0, i as int) =~= ns);
            Some(out)
        },
        _ => None,
    }
}

proof fn lemma_info_prefix_err(doc: YamlNode, keys: Seq<YamlNode>, k: int)
    requires
        0 <= k <= keys.len(),
        info_from(doc, keys.subrange(0, k)) is Err,
    ensures
        info_from(doc, keys) == info_from(doc, keys.subrange(0, k)),
    decreases keys.len(),
{
    if k == keys.len() {
        assert(keys.subrange(0, k) =~= keys);
    } else {
        assert(keys.drop_last().subrange(0, k) =~= keys.subrange(0, k));
        lemma_info_prefix_err(doc, keys.drop_last(), k);
    }
}

/// The text of a reserved key, compared with the literal names.
fn is_reserved(key: &str) -> (r: bool)
    ensures
        r == is_reserved_key(key@),
{
    crate::text::same_text(key, "order") || crate::text::same_text(key, "date")
}

} // verus!

verus! {

impl Post {
    /// The message of the error for a post without a date.
    pub fn missing_date_message(post_name: &str) -> (r: String)
        ensures
            r@ == "couldn't find date in the post: "@ + post_name@,
    {
        crate::text::concat("couldn't find date in the post: ", post_name)
    }

    /// Where the source of a post lies: `posts/<name>/<name>.md`.
    pub fn source_path(post_name: &str) -> (r: String)
        ensures
            r@ == "posts/"@ + post_name@ + "/"@ + post_name@ + ".md"@,
    {
        let mut s = String::from_str("posts/");
        s.append(post_name);
        s.append("/");
        s.append(post_name);
        s.append(".md");
        s
    }

    /// Reads a post from its source text: the metadata between the fences, the
    /// content after them rendered to HTML.
    pub fn new(post_name: &str, source: &str) -> (r: Result<Post, PostError>)
        ensures
            match r {
                Ok(p) => post_from_source(post_name@, source.spec_bytes()) == Ok::<
                    PostView,
                    PostError,
                >(p@),
                Err(e) => post_from_source(post_name@, source.spec_bytes()) == Err::<
                    PostView,
                    PostError,
                >(e),
            },
    {
        let (yaml_data, post_content) = match split_frontmatter(source) {
            Some(parts) => parts,
            None => {
                return Err(PostError::MalformedSource);
            },
        };
        let content = Generator::md_to_html(post_content.as_str());
        match load_documents(yaml_data.as_str()) {
            Ok(docs) => Post::from_documents(post_name, &docs, content),
            Err(_) => Err(PostError::Syntax),
        }
    }

    /// The post that loaded metadata documents and rendered content describe.
    pub fn from_documents(post_name: &str, docs: &Vec<YamlValue>, content: String) -> (r: Result<
        Post,
        PostError,
    >)
        ensures
            match r {
                Ok(p) => post_from_documents(post_name@, content@, nodes_of(docs@)) == Ok::<
                    PostView,
                    PostError,
                >(p@),
                Err(e) => post_from_documents(post_name@, content@, nodes_of(docs@)) == Err::<
                    PostView,
                    PostError,
                >(e),
            },
    {
        proof {
            lemma_nodes_of(docs@);
        }
        if docs.len() == 0 {
            return Err(PostError::NoDocument);
        }
        let doc = &docs[0];
        let order = text_or(doc.get("order"), "9999.0");
        let mut info: Vec<(String, Vec<String>)> = Vec::new();
        match doc {
            YamlValue::Hash(pairs) => {
                let ghost ps = pairs_of(pairs@);
                let ghost keys = keys_of(ps);
                proof {
                    lemma_pairs_of(pairs@);
                    assert(keys.subrange(0, 0) =~= Seq::<YamlNode>::empty());
                    assert(info_view(info@) =~= Seq::empty());
                }
                let mut i: usize = 0;
                while i < pairs.len()
                    invariant
                        ps == pairs_of(pairs@),
                        keys == keys_of(ps),
                        ps.len() == pairs@.len(),
                        doc.node() == YamlNode::Hash(ps),
                        nodes_of(docs@).len() > 0,
                        nodes_of(docs@)[0] == doc.node(),
                        forall|k: int|
                            0 <= k < pairs@.len() ==> #[trigger] ps[k] == (
                                pairs@[k].0.node(),
                                pairs@[k].1.node(),
                            ),
                        i <= pairs.len(),
                        info_from(doc.node(), keys.subrange(0, i as int)) == Ok::<
                            InfoView,
                            PostError,
                        >(info_view(info@)),
                    decreases pairs.len() - i,
                {
                    let ghost before = info_view(info@);
                    assert(keys.subrange(0, i + 1).drop_last() =~= keys.subrange(0, i as int));
                    assert(keys.subrange(0, i + 1).last() == pairs@[i as int].0.node());
                    match pairs[i].0.as_str() {
                        None => {
                            proof {
                                lemma_info_prefix_err(doc.node(), keys, i + 1);
                            }
                            return Err(PostError::NonTextKey);
                        },
                        Some(key) => {
                            if !is_reserved(key) {
                                match text_values(doc.get(key)) {
                                    None => {
                                        proof {
                                            lemma_info_prefix_err(doc.node(), keys, i + 1);
                                        }
                                        return Err(PostError::NonTextValue);
                                    },
                                    Some(vals) => {
                                        info_set(&mut info, String::from_str(key), vals);
                                    },
                                }
                            }
                        },
                    }
                    i = i + 1;
                }
                assert(keys.subrange(0, i as int) =~= keys);
            },
            _ => {
                return Err(PostError::NotAMapping);
            },
        }
        let date = match doc.get("date") {
            Some(v) => match v.as_str() {
                Some(d) => String::from_str(d),
                None => {
                    return Err(PostError::MissingDate);
                },
            },
            None => {
                return Err(PostError::MissingDate);
            },
        };
        let title_slug = String::from_str(post_name);
        Ok(Post { title_slug, content, date, order, info })
    }
}

} // verus!

verus! {

/// Whether a post is a draft: its first `draft` value is `true`; `None` where
/// the post has no `draft` value at all.
pub open spec fn draft_flag(info: InfoView) -> Option<bool> {
    match info_find(info, "draft"@) {
        Some(i) => if info[i].1.len() > 0 {
            Some(info[i].1[0] == "true"@)
        } else {
            None
        },
        None => None,
    }
}

/// The first value of a metadata key, if the key has one.
pub open spec fn first_value(info: InfoView, key: Seq<char>) -> Option<Seq<char>> {
    match info_find(info, key) {
        Some(i) => if info[i].1.len() > 0 {
            Some(info[i].1[0])
        } else {
            None
        },
        None => None,
    }
}

impl Post {
    /// Where a key stands in this post's metadata.
    fn find_info(&self, key: &str) -> (r: Option<usize>)
        ensures
            match r {
                Some(i) => info_find(info_view(self.info@), key@) == Some(i as int) && i
                    < self.info@.len(),
                None => info_find(info_view(self.info@), key@) is None,
            },
    {
        let ghost iv = info_view(self.info@);
        let mut i: usize = 0;
        while i < self.info.len()
            invariant
                iv == info_view(self.info@),
                i <= self.info@.len(),
                forall|j: int| 0 <= j < i ==> iv[j].0 != key@,
            decreases self.info@.len() - i,
        {
            if crate::text::same_text(self.info[i].0.as_str(), key) {
                proof {
                    lemma_info_find(iv, key@, i as int);
                }
                return Some(i);
            }
            i = i + 1;
        }
        proof {
            lemma_info_find(iv, key@, i as int);
        }
        None
    }

    /// The first value of a metadata key.
    pub fn first_info_value(&self, key: &str) -> (r: Option<String>)
        ensures
            match r {
                Some(v) => first_value(info_view(self.info@), key@) == Some(v@),
                None => first_value(info_view(self.info@), key@) is None,
            },
    {
        match self.find_info(key) {
            Some(i) => {
                let vals = &self.info[i].1;
                assert(info_view(self.info@)[i as int].1 == vals@.map_values(|v: String| v@));
                if vals.len() > 0 {
                    Some(vals[0].clone())
                } else {
                    None
                }
            },
            None => None,
        }
    }

    /// Whether the post is a draft; `None` where it has no `draft` value.
    pub fn is_draft(&self) -> (r: Option<bool>)
        ensures
            r == draft_flag(info_view(self.info@)),
    {
        match self.first_info_value("draft") {
            Some(v) => Some(crate::text::same_text(v.as_str(), "true")),
            None => None,
        }
    }

    /// The post's navigation entry: its order, its first title and its slug;
    /// `None` where it has no title.
    pub fn navigation_entry(&self) -> (r: Option<(String, String, String)>)
        ensures
            match r {
                Some(e) => first_value(info_view(self.info@), "title"@) == Some(e.1@) && e.0@
                    == self@.order && e.2@ == self@.title_slug,
                None => first_value(info_view(self.info@), "title"@) is None,
            },
    {
        match self.first_info_value("title") {
            Some(t) => Some((self.order.clone(), t, self.title_slug.clone())),
            None => None,
        }
    }
}

} // verus!

verus! {

/// Metadata in good shape: no entry for `order` or `date`, and no key twice.
pub open spec fn info_wf(info: InfoView) -> bool {
    &&& forall|i: int| 0 <= i < info.len() ==> !is_reserved_key(#[trigger] info[i].0)
    &&& forall|i: int, j: int| 0 <= i < j < info.len() ==> #[trigger] info[i].0 != #[trigger] info[j].0
}

proof fn lemma_info_find_facts(info: InfoView, key: Seq<char>)
    ensures
        match info_find(info, key) {
            Some(i) => 0 <= i < info.len() && info[i].0 == key,
            None => forall|j: int| 0 <= j < info.len() ==> info[j].0 != key,
        },
    decreases info.len(),
{
    if info.len() > 0 && info[0].0 != key {
        lemma_info_find_facts(info.drop_first(), key);
        assert forall|j: int| 1 <= j < info.len() implies info[j].0 == info.drop_first()[j - 1].0 by {}
    }
}

/// The metadata of a post never holds `order` or `date`, and holds each key once.
pub proof fn lemma_info_from_wf(doc: YamlNode, keys: Seq<YamlNode>)
    ensures
        info_from(doc, keys) matches Ok(info) ==> info_wf(info),
    decreases keys.len(),
{
    if keys.len() > 0 {
        lemma_info_from_wf(doc, keys.drop_last());
        match info_from(doc, keys.drop_last()) {
            Ok(info) => match node_str(keys.last()) {
                Some(k) => if !is_reserved_key(k) {
                    match values_of(node_get(doc, k)) {
                        Some(vals) => {
                            lemma_info_find_facts(info, k);
                            let r = info_insert(info, k, vals);
                            assert(info_wf(r));
                        },
                        None => {},
                    }
                },
                None => {},
            },
            Err(_) => {},
        }
    }
}

/// A post read from a source holds metadata in good shape.
pub proof fn lemma_post_info_wf(name: Seq<char>, source: Seq<u8>)
    ensures
        post_from_source(name, source) matches Ok(p) ==> info_wf(p.info),
{
    if frontmatter_splits(source) {
        match yaml_documents(decode_utf8(frontmatter_yaml(source))) {
            Some(docs) => if docs.len() > 0 {
                match docs[0] {
                    YamlNode::Hash(pairs) => lemma_info_from_wf(docs[0], keys_of(pairs)),
                    _ => {},
                }
            },
            None => {},
        }
    }
}

/// The texts of a list are its items' texts, one for one.
proof fn lemma_texts_of_items(items: Seq<YamlNode>)
    requires
        texts_of(items) is Some,
    ensures
        texts_of(items)->0.len() == items.len(),
        forall|k: int|
            0 <= k < items.len() ==> #[trigger] items[k] == YamlNode::Str(texts_of(items)->0[k]),
    decreases items.len(),
{
    if items.len() > 0 {
        lemma_texts_of_items(items.drop_last());
        let ts = texts_of(items)->0;
        assert forall|k: int| 0 <= k < items.len() implies #[trigger] items[k] == YamlNode::Str(
            ts[k],
        ) by {
            if k < items.len() - 1 {
                assert(items[k] == items.drop_last()[k]);
            }
        }
    }
}

/// A list of texts always has its texts.
proof fn lemma_texts_of_all_texts(items: Seq<YamlNode>)
    requires
        forall|k: int| 0 <= k < items.len() ==> #[trigger] items[k] is Str,
    ensures
        texts_of(items) is Some,
    decreases items.len(),
{
    if items.len() > 0 {
        assert forall|k: int| 0 <= k < items.drop_last().len() implies #[trigger] items.drop_last()[k] is Str by {
            assert(items.drop_last()[k] == items[k]);
        }
        lemma_texts_of_all_texts(items.drop_last());
        assert(items[items.len() - 1] is Str);
    }
}

/// A list-valued metadata entry keeps every item: a list of texts gives
/// exactly those texts, one value for each item, in the list's order.
pub proof fn lemma_list_values_keep_every_item(items: Seq<YamlNode>)
    requires
        forall|k: int| 0 <= k < items.len() ==> #[trigger] items[k] is Str,
    ensures
        values_of(YamlNode::Array(items)) is Some,
        values_of(YamlNode::Array(items))->0.len() == items.len(),
        forall|k: int|
            0 <= k < items.len() ==> #[trigger] items[k] == YamlNode::Str(
                values_of(YamlNode::Array(items))->0[k],
            ),
{
    lemma_texts_of_all_texts(items);
    lemma_texts_of_items(items);
}

/// A text-valued metadata entry holds that one text.
pub proof fn lemma_text_value_is_kept(t: Seq<char>)
    ensures
        values_of(YamlNode::Str(t)) == Some(seq![t]),
{
}

/// Every key read from the metadata, but `order` and `date`, stands in it
/// with the values written under that key.
proof fn lemma_info_from_keeps(doc: YamlNode, keys: Seq<YamlNode>, j: int)
    requires
        info_from(doc, keys) is Ok,
        0 <= j < keys.len(),
        keys[j] is Str,
        !is_reserved_key(keys[j]->Str_0),
    ensures
        ({
            let info = info_from(doc, keys)->Ok_0;
            let k = keys[j]->Str_0;
            exists|i: int|
                0 <= i < info.len() && #[trigger] info[i] == (k, values_of(node_get(doc, k))->0)
        }),
    decreases keys.len(),
{
    let k = keys[j]->Str_0;
    let prev = info_from(doc, keys.drop_last());
    let info = info_from(doc, keys)->Ok_0;
    let last = keys.last();
    assert(prev is Ok);
    let pinfo = prev->Ok_0;
    assert(last is Str);
    let k2 = last->Str_0;
    if j == keys.len() - 1 {
        let vals = values_of(node_get(doc, k))->0;
        assert(info == info_insert(pinfo, k, vals));
        lemma_info_find_facts(pinfo, k);
        match info_find(pinfo, k) {
            Some(i) => {
                assert(info[i] == (k, vals));
            },
            None => {
                assert(info[pinfo.len() as int] == (k, vals));
            },
        }
    } else {
        assert(keys.drop_last()[j] == keys[j]);
        lemma_info_from_keeps(doc, keys.drop_last(), j);
        let v = values_of(node_get(doc, k))->0;
        let i = choose|i: int| 0 <= i < pinfo.len() && #[trigger] pinfo[i] == (k, v);
        if is_reserved_key(k2) {
            assert(info == pinfo);
            assert(info[i] == (k, v));
        } else {
            let vals2 = values_of(node_get(doc, k2))->0;
            assert(info == info_insert(pinfo, k2, vals2));
            lemma_info_find_facts(pinfo, k2);
            if k2 == k {
                match info_find(pinfo, k2) {
                    Some(i2) => {
                        assert(info[i2] == (k, v));
                    },
                    None => {},
                }
            } else {
                match info_find(pinfo, k2) {
                    Some(i2) => {
                        assert(i2 != i);
                        assert(info[i] == (k, v));
                    },
                    None => {
                        assert(info[i] == (k, v));
                    },
                }
            }
        }
    }
}

/// A post keeps its metadata: every text key of its metadata document, but
/// `order` and `date`, stands in the post's metadata with the values written
/// under that key.
pub proof fn lemma_post_keeps_metadata(
    name: Seq<char>,
    html: Seq<char>,
    docs: Seq<YamlNode>,
    j: int,
)
    requires
        post_from_documents(name, html, docs) is Ok,
        docs.len() > 0,
        docs[0] is Hash,
        0 <= j < (docs[0]->Hash_0).len(),
        (docs[0]->Hash_0)[j].0 is Str,
        !is_reserved_key((docs[0]->Hash_0)[j].0->Str_0),
    ensures
        ({
            let p = post_from_documents(name, html, docs)->Ok_0;
            let k = (docs[0]->Hash_0)[j].0->Str_0;
            exists|i: int|
                0 <= i < p.info.len() && #[trigger] p.info[i] == (
                    k,
                    values_of(node_get(docs[0], k))->0,
                )
        }),
{
    let pairs = docs[0]->Hash_0;
    let p = post_from_documents(name, html, docs)->Ok_0;
    assert(keys_of(pairs).len() == pairs.len());
    assert(keys_of(pairs)[j] == pairs[j].0);
    assert(info_from(docs[0], keys_of(pairs)) is Ok);
    assert(p.info == info_from(docs[0], keys_of(pairs))->Ok_0);
    lemma_info_from_keeps(docs[0], keys_of(pairs), j);
}

} // verus!
