//! The generator of a site: its configuration, where it writes, and the
//! decisions it takes for each post and extra page.

use vstd::prelude::*;
use vstd::string::*;
use vstd::utf8::*;

use pulldown_cmark::{html, Options, Parser};

use crate::config::{for_webserver, ContentInfo, InkerConfig};
use crate::frontmatter::{frontmatter_body, frontmatter_splits, frontmatter_yaml, split_frontmatter};
use crate::post::{draft_flag, first_value, info_view, Post};

verus! {

/// The HTML that pulldown-cmark renders from a markdown text, with
/// strikethrough enabled.
pub uninterp spec fn commonmark_html(markdown: Seq<char>) -> Seq<char>;

/// What the generator of a site works from: its configuration and where it writes.
pub struct Generator {
    pub config: InkerConfig,
    pub for_publish: bool,
    pub output_folder: String,
}

impl Generator {
    /// A generator that writes to the publish folder when publishing, and to
    /// the build folder that the web server serves otherwise, its links then
    /// pointing at the web server's root.
    pub fn new(for_publish: bool, config: InkerConfig) -> (r: Generator)
        ensures
            r.config@ == (if for_publish {
                config@
            } else {
                for_webserver(config@)
            }),
            r.for_publish == for_publish,
            r.output_folder@ == (if for_publish {
                "publish"@
            } else {
                "build"@
            }),
    {
        let output_folder = if for_publish {
            String::from_str(InkerConfig::publish_folder())
        } else {
            String::from_str(InkerConfig::build_folder())
        };
        let mut config = config;
        if !for_publish {
            config.webserver_usage();
        }
        Generator { config, for_publish, output_folder }
    }

    /// Renders markdown to HTML by calling `pulldown_cmark::Parser::new_ext`,
    /// with strikethrough enabled, and `pulldown_cmark::html::push_html`. The
    /// contract claims only that the result is the named `commonmark_html` of
    /// the markdown.
    #[verifier::external_body]
    pub(crate) fn md_to_html(contents: &str) -> (html: String)
        ensures
            html@ == commonmark_html(contents@),
    {
        let mut options = Options::empty();
        options.insert(Options::ENABLE_STRIKETHROUGH);
        let parser = Parser::new_ext(contents, options);
        let mut html_output = String::new();
        html::push_html(&mut html_output, parser);
        html_output
    }

    /// Takes a post source and returns its metadata section, between the two
    /// fences, and the rest after the closing fence.
    pub fn parse_frontmatter(input: &str) -> (r: (String, String))
        requires
            frontmatter_splits(input.spec_bytes()),
        ensures
            r.0@ == decode_utf8(frontmatter_yaml(input.spec_bytes())),
            r.1@ == decode_utf8(frontmatter_body(input.spec_bytes())),
    {
        match split_frontmatter(input) {
            Some(p) => p,
            None => (String::new(), String::new()),
        }
    }
}

} // verus!

verus! {

/// `a/b`.
pub fn join_path(a: &str, b: &str) -> (r: String)
    ensures
        r@ == a@ + "/"@ + b@,
{
    let mut s = String::from_str(a);
    s.append("/");
    s.append(b);
    s
}

impl Generator {
    /// Where the static content goes: `<out>/static`.
    pub fn static_folder(&self) -> (r: String)
        ensures
            r@ == self.output_folder@ + "/"@ + "static"@,
    {
        join_path(self.output_folder.as_str(), "static")
    }

    /// Where the posts go: `<out>/posts`.
    pub fn posts_output_folder(&self) -> (r: String)
        ensures
            r@ == self.output_folder@ + "/"@ + "posts"@,
    {
        join_path(self.output_folder.as_str(), InkerConfig::posts_folder())
    }

    /// The folder of one generated post: `<out>/posts/<post>/`.
    pub fn post_output_folder(&self, post: &str) -> (r: String)
        ensures
            r@ == self.output_folder@ + "/"@ + "posts"@ + "/"@ + post@ + "/"@,
    {
        let mut s = self.posts_output_folder();
        s.append("/");
        s.append(post);
        s.append("/");
        s
    }

    /// The page of one generated post: `<out>/posts/<post>/index.html`.
    pub fn post_output_path(&self, post: &str) -> (r: String)
        ensures
            r@ == self.output_folder@ + "/"@ + "posts"@ + "/"@ + post@ + "/index.html"@,
    {
        let mut s = self.posts_output_folder();
        s.append("/");
        s.append(post);
        s.append("/index.html");
        s
    }

    /// The folder a post's own files come from: `posts/<post>`.
    pub fn post_source_folder(post: &str) -> (r: String)
        ensures
            r@ == "posts"@ + "/"@ + post@,
    {
        join_path(InkerConfig::posts_folder(), post)
    }

    /// The markdown of an extra page: `content/<source>`.
    pub fn extra_source_path(content_src: &str) -> (r: String)
        ensures
            r@ == "content"@ + "/"@ + content_src@,
    {
        join_path(InkerConfig::content_folder(), content_src)
    }

    /// The folder of an extra page: `<out>/<title>`.
    pub fn extra_output_folder(&self, title: &str) -> (r: String)
        ensures
            r@ == self.output_folder@ + "/"@ + title@,
    {
        join_path(self.output_folder.as_str(), title)
    }

    /// The page of an extra page: `<out>/<title>/index.html`.
    pub fn extra_output_path(&self, title: &str) -> (r: String)
        ensures
            r@ == self.output_folder@ + "/"@ + title@ + "/index.html"@,
    {
        let mut s = join_path(self.output_folder.as_str(), title);
        s.append("/index.html");
        s
    }

    /// The front page: `<out>/index.html`.
    pub fn index_path(&self) -> (r: String)
        ensures
            r@ == self.output_folder@ + "/index.html"@,
    {
        crate::text::concat(self.output_folder.as_str(), "/index.html")
    }

    /// The navigation page: `<out>/nav.html`.
    pub fn nav_path(&self) -> (r: String)
        ensures
            r@ == self.output_folder@ + "/nav.html"@,
    {
        crate::text::concat(self.output_folder.as_str(), "/nav.html")
    }

    /// The folder of the index pages: `<out>/page`.
    pub fn pages_folder(&self) -> (r: String)
        ensures
            r@ == self.output_folder@ + "/"@ + "page"@,
    {
        join_path(self.output_folder.as_str(), "page")
    }

    /// The folder of one index page: `<out>/page/<n>`.
    pub fn page_folder(&self, page_counter: i32) -> (r: String)
        ensures
            r@ == self.output_folder@ + "/"@ + "page"@ + "/"@ + crate::numeric::int_to_decimal(
                page_counter as int,
            ),
    {
        let n = crate::numeric::format_i32(page_counter);
        join_path(self.pages_folder().as_str(), n.as_str())
    }

    /// One index page: `<out>/page/<n>/index.html`.
    pub fn page_path(&self, page_counter: i32) -> (r: String)
        ensures
            r@ == self.output_folder@ + "/"@ + "page"@ + "/"@ + crate::numeric::int_to_decimal(
                page_counter as int,
            ) + "/index.html"@,
    {
        let mut s = self.page_folder(page_counter);
        s.append("/index.html");
        s
    }
}

} // verus!

verus! {

/// What the generation does with a post that was read.
pub enum PostPlan {
    /// A draft: left out.
    Skip,
    /// Published, with this navigation entry.
    Publish((String, String, String)),
    /// The post has no `draft` value to decide by.
    NoDraftFlag,
    /// The post is no draft but has no title for the navigation.
    NoTitle,
}

impl Generator {
    /// Decides about a post: drafts are left out, the others are published
    /// with their navigation entry.
    pub fn plan_post(post: &Post) -> (r: PostPlan)
        ensures
            draft_flag(info_view(post.info@)) is None ==> r is NoDraftFlag,
            draft_flag(info_view(post.info@)) == Some(true) ==> r is Skip,
            draft_flag(info_view(post.info@)) == Some(false) ==> match first_value(
                info_view(post.info@),
                "title"@,
            ) {
                Some(t) => r matches PostPlan::Publish(e) && e.0@ == post@.order && e.1@ == t
                    && e.2@ == post@.title_slug,
                None => r is NoTitle,
            },
    {
        match post.is_draft() {
            None => PostPlan::NoDraftFlag,
            Some(true) => PostPlan::Skip,
            Some(false) => match post.navigation_entry() {
                Some(e) => PostPlan::Publish(e),
                None => PostPlan::NoTitle,
            },
        }
    }
}

} // verus!

verus! {

/// What every template of the site receives besides its own page.
pub struct PageLinks {
    /// The path of the site's icon.
    pub icon_path: String,
    /// The base of the site's links.
    pub base_url: String,
}

/// What the index template receives besides its posts and the extra pages.
pub struct IndexHeader {
    /// Whether the index is split into pages.
    pub pagination_enabled: bool,
    /// The site's name.
    pub website_name: String,
    /// The number of the page, on a page of a paginated index.
    pub page_counter: Option<i32>,
    /// The site's icon and the base of its links.
    pub links: PageLinks,
}

/// What follows once every post has been read.
pub enum AfterPosts {
    /// No post was published: there is nothing to generate, and the
    /// generation stops.
    NothingToGenerate,
    /// The extra pages and the index follow, and the navigation where it is
    /// asked for.
    Finish { navigation: bool },
}

impl Generator {
    /// The site's icon and the base of its links, as every template receives them.
    pub fn page_links(&self) -> (r: PageLinks)
        ensures
            r.icon_path@ == self.config.icon_path@,
            r.base_url@ == self.config.base_url@,
    {
        PageLinks { icon_path: self.config.icon_path.clone(), base_url: self.config.base_url.clone() }
    }

    /// The header of an index page: whether the index is paginated, the site's
    /// name, the page's number where there is one, and the site's links.
    pub fn index_header(&self, page_counter: Option<i32>) -> (r: IndexHeader)
        ensures
            r.pagination_enabled == self.config.pagination,
            r.website_name@ == self.config.website_name@,
            r.page_counter == page_counter,
            r.links.icon_path@ == self.config.icon_path@,
            r.links.base_url@ == self.config.base_url@,
    {
        IndexHeader {
            pagination_enabled: self.config.pagination,
            website_name: self.config.website_name.clone(),
            page_counter,
            links: self.page_links(),
        }
    }

    /// What follows the posts: nothing when no post was published, else the
    /// rest of the site, with the navigation where the configuration asks for it.
    pub fn after_posts(&self, generated_posts: i32) -> (r: AfterPosts)
        ensures
            generated_posts == 0 ==> r is NothingToGenerate,
            generated_posts != 0 ==> r == (AfterPosts::Finish { navigation: self.config.generate_nav }),
    {
        if generated_posts == 0 {
            AfterPosts::NothingToGenerate
        } else {
            AfterPosts::Finish { navigation: self.config.generate_nav }
        }
    }
}

/// One extra page, ready for its template.
pub struct ExtraPage {
    /// The page's content rendered to HTML.
    pub content: String,
    /// The template that renders the page.
    pub template: String,
    /// The page's visible title.
    pub title: String,
    /// The folder the page goes to.
    pub folder: String,
    /// The file the page goes to.
    pub path: String,
    /// The site's icon and the base of its links.
    pub links: PageLinks,
}

impl Generator {
    /// An extra page from its markdown source: the content rendered to HTML,
    /// and where the page goes.
    pub fn extra_page(&self, content_info: &ContentInfo, markdown: &str) -> (r:
        ExtraPage)
        ensures
            r.content@ == commonmark_html(markdown@),
            r.template@ == content_info.template_src@,
            r.title@ == content_info.title@,
            r.folder@ == self.output_folder@ + "/"@ + content_info.title@,
            r.path@ == self.output_folder@ + "/"@ + content_info.title@ + "/index.html"@,
            r.links.icon_path@ == self.config.icon_path@,
            r.links.base_url@ == self.config.base_url@,
    {
        ExtraPage {
            content: Generator::md_to_html(markdown),
            template: content_info.template_src.clone(),
            title: content_info.title.clone(),
            folder: self.extra_output_folder(content_info.title.as_str()),
            path: self.extra_output_path(content_info.title.as_str()),
            links: self.page_links(),
        }
    }
}

} // verus!
