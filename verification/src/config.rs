//! The site configuration: its defaults, how it is read from YAML, and the
//! fixed folders of a site.

use vstd::prelude::*;
use vstd::string::*;

use crate::numeric::{
    parse_bool, parse_bool_spec, parse_i32, parse_i32_spec, parse_u16, parse_u16_spec,
};
use crate::text::concat;
use chrono::{DateTime, Utc};

use crate::yaml::{
    lemma_nodes_of, load_documents, node_get, node_str, nodes_of, str_or, yaml_documents,
    YamlNode, YamlValue,
};

verus! {

/// An extra page: its markdown source, its template and its visible title.
pub struct ContentInfo {
    pub content_src: String,
    pub template_src: String,
    pub title: String,
}

impl ContentInfo {
    pub fn new(content_src: String, template_src: String, title: String) -> (r: ContentInfo)
        ensures
            r.content_src == content_src,
            r.template_src == template_src,
            r.title == title,
    {
        ContentInfo { content_src, template_src, title }
    }

    /// The model: source, template and title.
    pub open spec fn model(self) -> (Seq<char>, Seq<char>, Seq<char>) {
        (self.content_src@, self.template_src@, self.title@)
    }
}

/// The settings of a site.
pub struct InkerConfig {
    pub base_url: String,
    pub port: u16,
    pub website_name: String,
    pub template_name: String,
    pub posts_per_page: i32,
    pub generate_nav: bool,
    pub pagination: bool,
    pub icon_path: String,
    pub extra_contents: Vec<ContentInfo>,
    pub headers: Vec<String>,
}

/// The model of a configuration.
pub struct ConfigView {
    pub base_url: Seq<char>,
    pub port: u16,
    pub website_name: Seq<char>,
    pub template_name: Seq<char>,
    pub posts_per_page: i32,
    pub generate_nav: bool,
    pub pagination: bool,
    pub icon_path: Seq<char>,
    pub extra_contents: Seq<(Seq<char>, Seq<char>, Seq<char>)>,
    pub headers: Seq<Seq<char>>,
}

impl View for InkerConfig {
    type V = ConfigView;

    open spec fn view(&self) -> ConfigView {
        ConfigView {
            base_url: self.base_url@,
            port: self.port,
            website_name: self.website_name@,
            template_name: self.template_name@,
            posts_per_page: self.posts_per_page,
            generate_nav: self.generate_nav,
            pagination: self.pagination,
            icon_path: self.icon_path@,
            extra_contents: self.extra_contents@.map_values(|c: ContentInfo| c.model()),
            headers: self.headers@.map_values(|h: String| h@),
        }
    }
}

/// Why a configuration text yields no configuration.
#[derive(Debug, PartialEq, Eq, Clone, Copy)]
pub enum ConfigError {
    /// The text is no YAML.
    Syntax,
    /// The text holds no YAML document.
    NoDocument,
    /// `port` is a text that does not parse as a `u16`, or an integer out of
    /// its range.
    InvalidPort,
    /// `posts-per-page` is a text that does not parse as an `i32`, or an
    /// integer out of its range.
    InvalidPostsPerPage,
    /// `pagination` is neither `true` nor `false`.
    InvalidPagination,
    /// `generate-nav` is neither `true` nor `false`.
    InvalidGenerateNav,
    /// `extra` is present but is no list of mappings from text to text.
    InvalidExtra,
    /// `headers` is present but is no list of texts.
    InvalidHeaders,
}

/// One entry of `extra`: the first key and value of a mapping and its last value.
pub open spec fn extra_entry(n: YamlNode) -> Option<(Seq<char>, Seq<char>, Seq<char>)> {
    match n {
        YamlNode::Hash(ps) => if ps.len() > 0 {
            match (node_str(ps[0].0), node_str(ps[0].1), node_str(ps[ps.len() - 1].1)) {
                (Some(a), Some(b), Some(c)) => Some((a, b, c)),
                _ => None,
            }
        } else {
            None
        },
        _ => None,
    }
}

/// The entries of an `extra` list, when every item is a valid entry.
pub open spec fn extra_entries(items: Seq<YamlNode>) -> Option<Seq<(Seq<char>, Seq<char>, Seq<char>)>>
    decreases items.len(),
{
    if items.len() == 0 {
        Some(Seq::empty())
    } else {
        match (extra_entries(items.drop_last()), extra_entry(items.last())) {
            (Some(es), Some(e)) => Some(es.push(e)),
            _ => None,
        }
    }
}

/// The texts of a `headers` list, when every item is a text.
pub open spec fn header_entries(items: Seq<YamlNode>) -> Option<Seq<Seq<char>>>
    decreases items.len(),
{
    if items.len() == 0 {
        Some(Seq::empty())
    } else {
        match (header_entries(items.drop_last()), node_str(items.last())) {
            (Some(hs), Some(h)) => Some(hs.push(h)),
            _ => None,
        }
    }
}

/// A list-valued setting: absent gives the empty list, a list gives its entries.
pub open spec fn extra_setting(n: YamlNode) -> Option<Seq<(Seq<char>, Seq<char>, Seq<char>)>> {
    match n {
        YamlNode::BadValue => Some(Seq::empty()),
        YamlNode::Array(items) => extra_entries(items),
        _ => None,
    }
}

/// The `headers` setting: absent gives the empty list, a list gives its texts.
pub open spec fn headers_setting(n: YamlNode) -> Option<Seq<Seq<char>>> {
    match n {
        YamlNode::BadValue => Some(Seq::empty()),
        YamlNode::Array(items) => header_entries(items),
        _ => None,
    }
}

/// A `u16` setting: a YAML text is parsed, a YAML integer is taken where it
/// is in range; any other node, an absent setting included, gives the default.
pub open spec fn u16_setting(n: YamlNode, default: u16) -> Option<u16> {
    match n {
        YamlNode::Str(s) => parse_u16_spec(s),
        YamlNode::Integer(i) => if 0 <= i <= u16::MAX {
            Some(i as u16)
        } else {
            None
        },
        _ => Some(default),
    }
}

/// An `i32` setting: a YAML text is parsed, a YAML integer is taken where it
/// is in range; any other node, an absent setting included, gives the default.
pub open spec fn i32_setting(n: YamlNode, default: i32) -> Option<i32> {
    match n {
        YamlNode::Str(s) => parse_i32_spec(s),
        YamlNode::Integer(i) => if i32::MIN <= i <= i32::MAX {
            Some(i as i32)
        } else {
            None
        },
        _ => Some(default),
    }
}

/// A flag: a YAML text is parsed as `true` or `false`, a YAML boolean is
/// taken; any other node, an absent setting included, gives the default.
pub open spec fn bool_setting(n: YamlNode, default: bool) -> Option<bool> {
    match n {
        YamlNode::Str(s) => parse_bool_spec(s),
        YamlNode::Boolean(b) => Some(b),
        _ => Some(default),
    }
}

/// The configuration that a YAML document describes. Text settings are read
/// when they are YAML strings; `port`, `posts-per-page` and `pagination` are
/// read from YAML strings and from YAML integers and booleans;
/// `generate-nav` is read from a YAML string only. Any other node gives the
/// default. The first setting that does not parse decides the error.
pub open spec fn config_from_document(doc: YamlNode) -> Result<ConfigView, ConfigError> {
    let port = u16_setting(node_get(doc, "port"@), 8080);
    let ppp = i32_setting(node_get(doc, "posts-per-page"@), 4);
    let pagination = bool_setting(node_get(doc, "pagination"@), false);
    let nav = parse_bool_spec(str_or(node_get(doc, "generate-nav"@), "false"@));
    let extra = extra_setting(node_get(doc, "extra"@));
    let headers = headers_setting(node_get(doc, "headers"@));
    if port is None {
        Err(ConfigError::InvalidPort)
    } else if ppp is None {
        Err(ConfigError::InvalidPostsPerPage)
    } else if pagination is None {
        Err(ConfigError::InvalidPagination)
    } else if nav is None {
        Err(ConfigError::InvalidGenerateNav)
    } else if extra is None {
        Err(ConfigError::InvalidExtra)
    } else if headers is None {
        Err(ConfigError::InvalidHeaders)
    } else {
        Ok(
            ConfigView {
                base_url: str_or(node_get(doc, "base-url"@), "/"@),
                port: port->0,
                website_name: str_or(node_get(doc, "website-name"@), "inker website"@),
                template_name: str_or(node_get(doc, "template-name"@), "bs-darkly"@),
                posts_per_page: ppp->0,
                generate_nav: nav->0,
                pagination: pagination->0,
                icon_path: str_or(node_get(doc, "icon-path"@), "none"@),
                extra_contents: extra->0,
                headers: headers->0,
            },
        )
    }
}

/// The configuration that the documents of a YAML text describe: the first
/// document counts.
pub open spec fn config_from_documents(docs: Seq<YamlNode>) -> Result<ConfigView, ConfigError> {
    if docs.len() == 0 {
        Err(ConfigError::NoDocument)
    } else {
        config_from_document(docs[0])
    }
}

/// The configuration that a configuration text describes.
pub open spec fn config_from_text(source: Seq<char>) -> Result<ConfigView, ConfigError> {
    match yaml_documents(source) {
        Some(docs) => config_from_documents(docs),
        None => Err(ConfigError::Syntax),
    }
}

/// The model of a lookup result, `None` standing for `BadValue`.
pub open spec fn found_node(r: Option<&YamlValue>) -> YamlNode {
    match r {
        Some(v) => v.node(),
        None => YamlNode::BadValue,
    }
}

/// The text of a looked-up node, or the default.
pub(crate) fn text_or(found: Option<&YamlValue>, default: &str) -> (r: String)
    ensures
        r@ == str_or(found_node(found), default@),
{
    match found {
        Some(v) => match v.as_str() {
            Some(s) => String::from_str(s),
            None => String::from_str(default),
        },
        None => String::from_str(default),
    }
}

/// A `u16` setting as `u16_setting` reads it.
fn read_u16(found: Option<&YamlValue>, default: u16) -> (r: Option<u16>)
    ensures
        r == u16_setting(found_node(found), default),
{
    match found {
        Some(YamlValue::Str(s)) => parse_u16(s.as_str()),
        Some(YamlValue::Integer(i)) => if 0 <= *i && *i <= 65535 {
            Some(*i as u16)
        } else {
            None
        },
        _ => Some(default),
    }
}

/// An `i32` setting as `i32_setting` reads it.
fn read_i32(found: Option<&YamlValue>, default: i32) -> (r: Option<i32>)
    ensures
        r == i32_setting(found_node(found), default),
{
    match found {
        Some(YamlValue::Str(s)) => parse_i32(s.as_str()),
        Some(YamlValue::Integer(i)) => if -2147483648 <= *i && *i <= 2147483647 {
            Some(*i as i32)
        } else {
            None
        },
        _ => Some(default),
    }
}

/// A flag as `bool_setting` reads it.
fn read_bool(found: Option<&YamlValue>, default: bool) -> (r: Option<bool>)
    ensures
        r == bool_setting(found_node(found), default),
{
    match found {
        Some(YamlValue::Str(s)) => parse_bool(s.as_str()),
        Some(YamlValue::Boolean(b)) => Some(*b),
        _ => Some(default),
    }
}

} // verus!

verus! {

proof fn lemma_extra_prefix_none(items: Seq<YamlNode>, k: int)
    requires
        0 <= k <= items.len(),
        extra_entries(items.subrange(0, k)) is None,
    ensures
        extra_entries(items) is None,
    decreases items.len(),
{
    if k == items.len() {
        assert(items.subrange(0, k) =~= items);
    } else {
        assert(items.drop_last().subrange(0, k) =~= items.subrange(0, k));
        lemma_extra_prefix_none(items.drop_last(), k);
    }
}

proof fn lemma_headers_prefix_none(items: Seq<YamlNode>, k: int)
    requires
        0 <= k <= items.len(),
        header_entries(items.subrange(0, k)) is None,
    ensures
        header_entries(items) is None,
    decreases items.len(),
{
    if k == items.len() {
        assert(items.subrange(0, k) =~= items);
    } else {
        assert(items.drop_last().subrange(0, k) =~= items.subrange(0, k));
        lemma_headers_prefix_none(items.drop_last(), k);
    }
}

/// One entry of `extra`.
fn read_extra_entry(v: &YamlValue) -> (r: Option<ContentInfo>)
    ensures
        match r {
            Some(c) => extra_entry(v.node()) == Some(c.model()),
            None => extra_entry(v.node()) is None,
        },
{
    match v {
        YamlValue::Hash(pairs) => {
            proof {
                crate::yaml::lemma_pairs_of(pairs@);
            }
            if pairs.len() == 0 {
                return None;
            }
            let last = pairs.len() - 1;
            match (pairs[0].0.as_str(), pairs[0].1.as_str(), pairs[last].1.as_str()) {
                (Some(a), Some(b), Some(c)) => Some(
                    ContentInfo::new(String::from_str(a), String::from_str(b), String::from_str(c)),
                ),
                _ => None,
            }
        },
        _ => None,
    }
}

/// The `extra` setting.
fn read_extra(found: Option<&YamlValue>) -> (r: Option<Vec<ContentInfo>>)
    ensures
        match r {
            Some(v) => extra_setting(found_node(found)) == Some(
                v@.map_values(|c: ContentInfo| c.model()),
            ),
            None => extra_setting(found_node(found)) is None,
        },
{
    match found {
        None => {
            let v: Vec<ContentInfo> = Vec::new();
            assert(v@.map_values(|c: ContentInfo| c.model()) =~= Seq::empty());
            Some(v)
        },
        Some(YamlValue::BadValue) => {
            let v: Vec<ContentInfo> = Vec::new();
            assert(v@.map_values(|c: ContentInfo| c.model()) =~= Seq::empty());
            Some(v)
        },
        Some(YamlValue::Array(items)) => {
            let ghost ns = nodes_of(items@);
            proof {
                lemma_nodes_of(items@);
                assert(ns.subrange(0, 0) =~= Seq::<YamlNode>::empty());
                assert(found_node(found) == YamlNode::Array(ns));
            }
            let mut out: Vec<ContentInfo> = Vec::new();
            let mut i: usize = 0;
            while i < items.len()
                invariant
                    ns == nodes_of(items@),
                    ns.len() == items@.len(),
                    found_node(found) == YamlNode::Array(ns),
                    out@.len() == i,
                    forall|k: int| 0 <= k < items@.len() ==> #[trigger] ns[k] == items@[k].node(),
                    i <= items.len(),
                    extra_entries(ns.subrange(0, i as int)) == Some(
                        out@.map_values(|c: ContentInfo| c.model()),
                    ),
                decreases items.len() - i,
            {
                let ghost before = out@.map_values(|c: ContentInfo| c.model());
                assert(ns.subrange(0, i + 1).drop_last() =~= ns.subrange(0, i as int));
                assert(ns.subrange(0, i + 1).last() == items@[i as int].node());
                match read_extra_entry(&items[i]) {
                    Some(c) => {
                        out.push(c);
                        assert(out@.map_values(|c: ContentInfo| c.model()) =~= before.push(
                            out@[i as int].model(),
                        ));
                    },
                    None => {
                        proof {
                            lemma_extra_prefix_none(ns, i + 1);
                        }
                        return None;
                    },
                }
                i = i + 1;
            }
            assert(ns.subrange(0, i as int) =~= ns);
            Some(out)
        },
        Some(_) => None,
    }
}

/// The `headers` setting.
fn read_headers(found: Option<&YamlValue>) -> (r: Option<Vec<String>>)
    ensures
        match r {
            Some(v) => headers_setting(found_node(found)) == Some(v@.map_values(|h: String| h@)),
            None => headers_setting(found_node(found)) is None,
        },
{
    match found {
        None => {
            let v: Vec<String> = Vec::new();
            assert(v@.map_values(|h: String| h@) =~= Seq::empty());
            Some(v)
        },
        Some(YamlValue::BadValue) => {
            let v: Vec<String> = Vec::new();
            assert(v@.map_values(|h: String| h@) =~= Seq::empty());
            Some(v)
        },
        Some(YamlValue::Array(items)) => {
            let ghost ns = nodes_of(items@);
            proof {
                lemma_nodes_of(items@);
                assert(ns.subrange(0, 0) =~= Seq::<YamlNode>::empty());
                assert(found_node(found) == YamlNode::Array(ns));
            }
            let mut out: Vec<String> = Vec::new();
            let mut i: usize = 0;
            while i < items.len()
                invariant
                    ns == nodes_of(items@),
                    ns.len() == items@.len(),
                    found_node(found) == YamlNode::Array(ns),
                    out@.len() == i,
                    forall|k: int| 0 <= k < items@.len() ==> #[trigger] ns[k] == items@[k].node(),
                    i <= items.len(),
                    header_entries(ns.subrange(0, i as int)) == Some(
                        out@.map_values(|h: String| h@),
                    ),
                decreases items.len() - i,
            {
                let ghost before = out@.map_values(|h: String| h@);
                assert(ns.subrange(0, i + 1).drop_last() =~= ns.subrange(0, i as int));
                assert(ns.subrange(0, i + 1).last() == items@[i as int].node());
                match items[i].as_str() {
                    Some(h) => {
                        out.push(String::from_str(h));
                        assert(out@.map_values(|h: String| h@) =~= before.push(h@));
                    },
                    None => {
                        proof {
                            lemma_headers_prefix_none(ns, i + 1);
                        }
                        return None;
                    },
                }
                i = i + 1;
            }
            assert(ns.subrange(0, i as int) =~= ns);
            Some(out)
        },
        Some(_) => None,
    }
}

} // verus!

verus! {

/// The configuration used where a site has no configuration file.
pub const DEFAULT_CONFIG: &'static str = "port: 8080\nwebsite-name: \"inker website\"\nposts-per-page: \"4\"\npagination: \"false\"\nicon-path: \"none\"\ngenerate_nav: \"false\"\n";

/// The configuration text of a site: its file when it has one, else the default.
pub open spec fn config_source(config_file: Option<Seq<char>>) -> Seq<char> {
    match config_file {
        Some(s) => s,
        None => DEFAULT_CONFIG@,
    }
}

/// The model of an optional text.
pub open spec fn opt_view(s: Option<&str>) -> Option<Seq<char>> {
    match s {
        Some(t) => Some(t@),
        None => None,
    }
}

impl InkerConfig {
    /// Reads the configuration from the text of `config.yaml`, or from the
    /// default configuration where the site has no such file.
    pub fn new(config_file: Option<&str>) -> (r: Result<InkerConfig, ConfigError>)
        ensures
            match r {
                Ok(c) => config_from_text(config_source(opt_view(config_file))) == Ok::<
                    ConfigView,
                    ConfigError,
                >(c@),
                Err(e) => config_from_text(config_source(opt_view(config_file))) == Err::<
                    ConfigView,
                    ConfigError,
                >(e),
            },
    {
        let source = match config_file {
            Some(s) => s,
            None => DEFAULT_CONFIG,
        };
        match load_documents(source) {
            Ok(docs) => InkerConfig::from_documents(&docs),
            Err(_) => Err(ConfigError::Syntax),
        }
    }

    /// The configuration that loaded YAML documents describe: the first one counts.
    pub fn from_documents(docs: &Vec<YamlValue>) -> (r: Result<InkerConfig, ConfigError>)
        ensures
            match r {
                Ok(c) => config_from_documents(nodes_of(docs@)) == Ok::<ConfigView, ConfigError>(
                    c@,
                ),
                Err(e) => config_from_documents(nodes_of(docs@)) == Err::<ConfigView, ConfigError>(
                    e,
                ),
            },
    {
        proof {
            lemma_nodes_of(docs@);
        }
        if docs.len() == 0 {
            return Err(ConfigError::NoDocument);
        }
        InkerConfig::from_document(&docs[0])
    }

    /// The configuration that one YAML document describes.
    pub fn from_document(doc: &YamlValue) -> (r: Result<InkerConfig, ConfigError>)
        ensures
            match r {
                Ok(c) => config_from_document(doc.node()) == Ok::<ConfigView, ConfigError>(c@),
                Err(e) => config_from_document(doc.node()) == Err::<ConfigView, ConfigError>(e),
            },
    {
        let port = match read_u16(doc.get("port"), 8080) {
            Some(p) => p,
            None => {
                return Err(ConfigError::InvalidPort);
            },
        };
        let website_name = text_or(doc.get("website-name"), "inker website");
        let template_name = text_or(doc.get("template-name"), "bs-darkly");
        let posts_per_page = match read_i32(doc.get("posts-per-page"), 4) {
            Some(p) => p,
            None => {
                return Err(ConfigError::InvalidPostsPerPage);
            },
        };
        let pagination = match read_bool(doc.get("pagination"), false) {
            Some(p) => p,
            None => {
                return Err(ConfigError::InvalidPagination);
            },
        };
        let nav_text = text_or(doc.get("generate-nav"), "false");
        let generate_nav = match parse_bool(nav_text.as_str()) {
            Some(p) => p,
            None => {
                return Err(ConfigError::InvalidGenerateNav);
            },
        };
        let base_url = text_or(doc.get("base-url"), "/");
        let icon_path = text_or(doc.get("icon-path"), "none");
        let extra_contents = match read_extra(doc.get("extra")) {
            Some(e) => e,
            None => {
                return Err(ConfigError::InvalidExtra);
            },
        };
        let headers = match read_headers(doc.get("headers")) {
            Some(h) => h,
            None => {
                return Err(ConfigError::InvalidHeaders);
            },
        };
        let c = InkerConfig {
            base_url,
            port,
            website_name,
            template_name,
            posts_per_page,
            generate_nav,
            pagination,
            icon_path,
            extra_contents,
            headers,
        };
        assert(c@ == config_from_document(doc.node())->Ok_0);
        Ok(c)
    }
}

} // verus!

verus! {

/// The RFC 3339 text that chrono gives the UTC instant `secs` seconds and
/// `nanos` nanoseconds after the Unix epoch, or `None` where chrono has no such
/// instant.
pub uninterp spec fn rfc3339_utc(secs: i64, nanos: u32) -> Option<Seq<char>>;

/// A configuration as the local web server uses it: its links start at `/`.
pub open spec fn for_webserver(c: ConfigView) -> ConfigView {
    ConfigView { base_url: "/"@, ..c }
}

impl InkerConfig {
    /// The folder the local web server serves.
    pub fn build_folder() -> (r: &'static str)
        ensures
            r@ == "build"@,
    {
        "build"
    }

    /// The folder that holds the extra pages and static content.
    pub fn content_folder() -> (r: &'static str)
        ensures
            r@ == "content"@,
    {
        "content"
    }

    /// The folder that holds one folder per post.
    pub fn posts_folder() -> (r: &'static str)
        ensures
            r@ == "posts"@,
    {
        "posts"
    }

    /// The folder where the site is generated for publishing.
    pub fn publish_folder() -> (r: &'static str)
        ensures
            r@ == "publish"@,
    {
        "publish"
    }

    /// Prepares the configuration for the local web server, which serves the
    /// build folder at its root: links start at `/`.
    pub fn webserver_usage(&mut self)
        ensures
            final(self)@ == for_webserver(old(self)@),
    {
        self.base_url = String::from_str("/");
    }

    /// The folder of the configured template.
    pub fn template_folder(&self) -> (r: String)
        ensures
            r@ == "templates/"@ + self.template_name@,
    {
        concat("templates/", self.template_name.as_str())
    }

    /// The template of a new post: the template's model inside the metadata
    /// fence, followed by the mandatory date.
    pub fn post_template(model: &str, time: &str) -> (r: String)
        ensures
            r@ == "---\n"@ + model@ + "\ndate: "@ + time@
                + " # this field is mandatory to have \n---\nenter your content here"@,
    {
        let mut s = String::from_str("---\n");
        s.append(model);
        s.append("\ndate: ");
        s.append(time);
        s.append(" # this field is mandatory to have \n---\nenter your content here");
        s
    }

    /// Calls `DateTime::<Utc>::from_timestamp` and formats the instant with
    /// `to_rfc3339`. The contract claims only that the outcome is the named
    /// `rfc3339_utc` of the two arguments.
    #[verifier::external_body]
    pub fn current_time(secs: i64, nanos: u32) -> (r: Option<String>)
        ensures
            match r {
                Some(s) => rfc3339_utc(secs, nanos) == Some(s@),
                None => rfc3339_utc(secs, nanos) is None,
            },
    {
        DateTime::<Utc>::from_timestamp(secs, nanos).map(|t| t.to_rfc3339())
    }
}

} // verus!

verus! {

/// The entries of an `extra` list are its items' entries, one for one.
proof fn lemma_extra_entries_items(items: Seq<YamlNode>)
    requires
        extra_entries(items) is Some,
    ensures
        extra_entries(items)->0.len() == items.len(),
        forall|k: int|
            0 <= k < items.len() ==> #[trigger] extra_entry(items[k]) == Some(
                extra_entries(items)->0[k],
            ),
    decreases items.len(),
{
    if items.len() > 0 {
        lemma_extra_entries_items(items.drop_last());
        let es = extra_entries(items)->0;
        assert forall|k: int| 0 <= k < items.len() implies #[trigger] extra_entry(items[k])
            == Some(es[k]) by {
            if k < items.len() - 1 {
                assert(items[k] == items.drop_last()[k]);
            }
        }
    }
}

/// The texts of a `headers` list are its items' texts, one for one.
proof fn lemma_header_entries_items(items: Seq<YamlNode>)
    requires
        header_entries(items) is Some,
    ensures
        header_entries(items)->0.len() == items.len(),
        forall|k: int|
            0 <= k < items.len() ==> #[trigger] node_str(items[k]) == Some(
                header_entries(items)->0[k],
            ),
    decreases items.len(),
{
    if items.len() > 0 {
        lemma_header_entries_items(items.drop_last());
        let hs = header_entries(items)->0;
        assert forall|k: int| 0 <= k < items.len() implies #[trigger] node_str(items[k]) == Some(
            hs[k],
        ) by {
            if k < items.len() - 1 {
                assert(items[k] == items.drop_last()[k]);
            }
        }
    }
}

/// Every item of an `extra` list becomes one extra page, in the list's order:
/// the page's source is the item's first key, its template the first value,
/// and its title the last value.
pub proof fn lemma_extra_keeps_every_item(doc: YamlNode)
    requires
        config_from_document(doc) is Ok,
        node_get(doc, "extra"@) is Array,
    ensures
        ({
            let items = node_get(doc, "extra"@)->Array_0;
            let c = config_from_document(doc)->Ok_0;
            &&& c.extra_contents.len() == items.len()
            &&& forall|k: int|
                #![trigger items[k]]
                0 <= k < items.len() ==> {
                    let ps = items[k]->Hash_0;
                    &&& items[k] is Hash
                    &&& ps.len() > 0
                    &&& node_str(ps[0].0) is Some
                    &&& node_str(ps[0].1) is Some
                    &&& node_str(ps[ps.len() - 1].1) is Some
                    &&& c.extra_contents[k] == (
                        node_str(ps[0].0)->0,
                        node_str(ps[0].1)->0,
                        node_str(ps[ps.len() - 1].1)->0,
                    )
                }
        }),
{
    let items = node_get(doc, "extra"@)->Array_0;
    lemma_extra_entries_items(items);
    let c = config_from_document(doc)->Ok_0;
    assert forall|k: int| #![trigger items[k]] 0 <= k < items.len() implies {
        let ps = items[k]->Hash_0;
        &&& items[k] is Hash
        &&& ps.len() > 0
        &&& node_str(ps[0].0) is Some
        &&& node_str(ps[0].1) is Some
        &&& node_str(ps[ps.len() - 1].1) is Some
        &&& c.extra_contents[k] == (
            node_str(ps[0].0)->0,
            node_str(ps[0].1)->0,
            node_str(ps[ps.len() - 1].1)->0,
        )
    } by {
        assert(extra_entry(items[k]) == Some(c.extra_contents[k]));
    }
}

/// Every item of a `headers` list becomes one header, in the list's order.
pub proof fn lemma_headers_keep_every_item(doc: YamlNode)
    requires
        config_from_document(doc) is Ok,
        node_get(doc, "headers"@) is Array,
    ensures
        ({
            let items = node_get(doc, "headers"@)->Array_0;
            let c = config_from_document(doc)->Ok_0;
            &&& c.headers.len() == items.len()
            &&& forall|k: int|
                0 <= k < items.len() ==> #[trigger] items[k] == YamlNode::Str(c.headers[k])
        }),
{
    let items = node_get(doc, "headers"@)->Array_0;
    lemma_header_entries_items(items);
    let c = config_from_document(doc)->Ok_0;
    assert forall|k: int| 0 <= k < items.len() implies #[trigger] items[k] == YamlNode::Str(
        c.headers[k],
    ) by {
        assert(node_str(items[k]) == Some(c.headers[k]));
    }
}

/// Preparing a configuration for the local web server points its links at
/// the server's root and leaves every other setting as it was read.
pub proof fn lemma_webserver_changes_only_links(c: ConfigView)
    ensures
        for_webserver(c).base_url == "/"@,
        for_webserver(c).port == c.port,
        for_webserver(c).website_name == c.website_name,
        for_webserver(c).template_name == c.template_name,
        for_webserver(c).posts_per_page == c.posts_per_page,
        for_webserver(c).generate_nav == c.generate_nav,
        for_webserver(c).pagination == c.pagination,
        for_webserver(c).icon_path == c.icon_path,
        for_webserver(c).extra_contents == c.extra_contents,
        for_webserver(c).headers == c.headers,
{
}

/// Each setting of a configuration is the value written for it, and its
/// default where it is absent: numbers given as YAML integers, flags given as
/// YAML booleans, and texts given as YAML strings are taken as written.
pub proof fn lemma_settings_are_read(doc: YamlNode)
    requires
        config_from_document(doc) is Ok,
    ensures
        ({
            let c = config_from_document(doc)->Ok_0;
            &&& node_get(doc, "port"@) matches YamlNode::Integer(i) ==> c.port == i
            &&& node_get(doc, "port"@) is BadValue ==> c.port == 8080
            &&& node_get(doc, "posts-per-page"@) matches YamlNode::Integer(i) ==> c.posts_per_page
                == i
            &&& node_get(doc, "posts-per-page"@) is BadValue ==> c.posts_per_page == 4
            &&& node_get(doc, "pagination"@) matches YamlNode::Boolean(b) ==> c.pagination == b
            &&& node_get(doc, "pagination"@) is BadValue ==> !c.pagination
            &&& node_get(doc, "generate-nav"@) is BadValue ==> !c.generate_nav
            &&& node_get(doc, "base-url"@) matches YamlNode::Str(t) ==> c.base_url == t
            &&& node_get(doc, "base-url"@) is BadValue ==> c.base_url == "/"@
            &&& node_get(doc, "website-name"@) matches YamlNode::Str(t) ==> c.website_name == t
            &&& node_get(doc, "website-name"@) is BadValue ==> c.website_name == "inker website"@
            &&& node_get(doc, "template-name"@) matches YamlNode::Str(t) ==> c.template_name == t
            &&& node_get(doc, "template-name"@) is BadValue ==> c.template_name == "bs-darkly"@
            &&& node_get(doc, "icon-path"@) matches YamlNode::Str(t) ==> c.icon_path == t
            &&& node_get(doc, "icon-path"@) is BadValue ==> c.icon_path == "none"@
            &&& node_get(doc, "extra"@) is BadValue ==> c.extra_contents.len() == 0
            &&& node_get(doc, "headers"@) is BadValue ==> c.headers.len() == 0
        }),
{
    reveal_strlit("false");
    assert("false"@ =~= seq!['f', 'a', 'l', 's', 'e']);
}

} // verus!

