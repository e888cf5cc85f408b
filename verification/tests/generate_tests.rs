use inker::config::InkerConfig;
use inker::frontmatter::split_frontmatter;
use inker::generate::{join_path, AfterPosts, Generator, PostPlan};
use inker::navigation::{MainItem, SubItem};
use inker::pagination::get_first_n_elements;
use inker::post::{Post, PostError};

fn post(slug: &str, order: &str, date: &str) -> Post {
    Post {
        title_slug: slug.to_string(),
        content: String::new(),
        date: date.to_string(),
        order: order.to_string(),
        info: Vec::new(),
    }
}

fn config_with_headers(headers: &[&str]) -> InkerConfig {
    let mut c = InkerConfig::new(None).unwrap();
    c.headers = headers.iter().map(|h| h.to_string()).collect();
    c
}

#[test]
fn frontmatter_is_cut_at_the_fences() {
    let (meta, body) = Generator::parse_frontmatter("---\ntitle: a\n---\nbody");
    assert_eq!(meta, "\ntitle: a");
    assert_eq!(body, "\nbody");
}

#[test]
fn frontmatter_round_trip() {
    let meta = "\ntitle: \"héllo\"\ndate: 2020-01-01";
    let body = "\n# Über\ncontent";
    let doc = format!("---{}\n---{}", meta, body);
    assert_eq!(split_frontmatter(&doc), Some((meta.to_string(), body.to_string())));
}

#[test]
fn frontmatter_with_text_before_the_fence_is_cut_at_the_fences() {
    assert_eq!(split_frontmatter("x---a\n---b"), Some(("a".to_string(), "b".to_string())));
    assert_eq!(split_frontmatter("intro\n---\ntitle: t\n---\nbody"), Some(("\ntitle: t".to_string(), "\nbody".to_string())));
}

#[test]
fn frontmatter_needs_two_fences() {
    assert_eq!(split_frontmatter("no fence here"), None);
    assert_eq!(split_frontmatter("---only one"), None);
    assert_eq!(split_frontmatter("------"), None);
}

#[test]
fn frontmatter_cut_inside_a_character_is_refused() {
    // the byte before the closing fence is the middle of a two-byte character
    assert_eq!(split_frontmatter("---\u{e9}---x"), None);
}

#[test]
fn extra_pages_render_markdown_with_strikethrough() {
    let g = Generator::new(false, InkerConfig::new(None).unwrap());
    let info = inker::config::ContentInfo::new("p.md".to_string(), "p.html".to_string(), "projects".to_string());
    let page = g.extra_page(&info, "~~gone~~");
    assert_eq!(page.content, "<p><del>gone</del></p>\n");
    assert_eq!(page.template, "p.html");
    assert_eq!(page.title, "projects");
    assert_eq!(page.folder, "build/projects");
    assert_eq!(page.path, "build/projects/index.html");
    assert_eq!(g.extra_page(&info, "# Hi").content, "<h1>Hi</h1>\n");
}

#[test]
fn post_is_read_from_its_source() {
    let src = "---\ntitle: \"Hello\"\ndate: \"2020-01-01\"\ndraft: \"false\"\norder: \"1.2\"\ntags: [a, b]\n---\n# Hi";
    let p = Post::new("hello", src).unwrap();
    assert_eq!(p.title_slug, "hello");
    assert_eq!(p.content, "<h1>Hi</h1>\n");
    assert_eq!(p.date, "2020-01-01");
    assert_eq!(p.order, "1.2");
    assert_eq!(
        p.info,
        vec![
            ("title".to_string(), vec!["Hello".to_string()]),
            ("draft".to_string(), vec!["false".to_string()]),
            ("tags".to_string(), vec!["a".to_string(), "b".to_string()]),
        ]
    );
    assert_eq!(p.is_draft(), Some(false));
    assert_eq!(
        p.navigation_entry(),
        Some(("1.2".to_string(), "Hello".to_string(), "hello".to_string()))
    );
}

#[test]
fn post_order_defaults() {
    let p = Post::new("p", "---\ndate: \"d\"\n---\n").unwrap();
    assert_eq!(p.order, "9999.0");
    assert!(p.info.is_empty());
    assert_eq!(p.is_draft(), None);
    assert_eq!(p.navigation_entry(), None);
}

#[test]
fn post_without_date_is_an_error() {
    assert_eq!(Post::new("p", "---\ntitle: \"t\"\n---\nx").err(), Some(PostError::MissingDate));
    assert_eq!(Post::new("p", "---\ndate: 2020\n---\nx").err(), Some(PostError::MissingDate));
    assert_eq!(Post::missing_date_message("p"), "couldn't find date in the post: p");
}

#[test]
fn post_errors() {
    assert_eq!(Post::new("p", "no fences").err(), Some(PostError::MalformedSource));
    assert_eq!(Post::new("p", "---\na: [\n---\nx").err(), Some(PostError::Syntax));
    assert_eq!(Post::new("p", "---\n---\nx").err(), Some(PostError::NoDocument));
    assert_eq!(Post::new("p", "---\n- a\n---\nx").err(), Some(PostError::NotAMapping));
    assert_eq!(Post::new("p", "---\n1: \"a\"\n---\nx").err(), Some(PostError::NonTextKey));
    assert_eq!(
        Post::new("p", "---\ncount: 3\ndate: \"d\"\n---\nx").err(),
        Some(PostError::NonTextValue)
    );
    assert_eq!(
        Post::new("p", "---\ndraft: false\ndate: \"d\"\n---\nx").err(),
        Some(PostError::NonTextValue)
    );
}

#[test]
fn order_and_date_may_hold_anything() {
    let p = Post::new("p", "---\norder: 3\ndate: \"d\"\n---\n").unwrap();
    assert_eq!(p.order, "9999.0");
    assert!(p.info.is_empty());
}

#[test]
fn post_source_path() {
    assert_eq!(Post::source_path("a-b"), "posts/a-b/a-b.md");
}

#[test]
fn plan_of_posts() {
    let mut p = post("s", "1", "d");
    assert!(matches!(Generator::plan_post(&p), PostPlan::NoDraftFlag));
    p.info.push(("draft".to_string(), vec!["true".to_string()]));
    assert!(matches!(Generator::plan_post(&p), PostPlan::Skip));
    p.info[0].1[0] = "no".to_string();
    assert!(matches!(Generator::plan_post(&p), PostPlan::NoTitle));
    p.info.push(("title".to_string(), vec!["T".to_string()]));
    match Generator::plan_post(&p) {
        PostPlan::Publish(e) => assert_eq!(e, ("1".to_string(), "T".to_string(), "s".to_string())),
        _ => panic!("expected a published post"),
    }
}

#[test]
fn main_item_order_is_text_before_first_dot() {
    assert_eq!(MainItem::new("1. Intro".to_string()).order, "1");
    assert_eq!(MainItem::new("2.3.4".to_string()).order, "2");
    assert_eq!(MainItem::new("none".to_string()).order, "none");
    assert_eq!(MainItem::new(".x".to_string()).order, "");
    assert!(MainItem::new("1. Intro".to_string()).items.is_empty());
}

#[test]
fn sub_item_keeps_fields() {
    let s = SubItem::new("t".to_string(), "s".to_string(), "o".to_string());
    assert_eq!((s.title, s.title_slug, s.order), ("t".to_string(), "s".to_string(), "o".to_string()));
}

fn nav(order: &str, title: &str, slug: &str) -> (String, String, String) {
    (order.to_string(), title.to_string(), slug.to_string())
}

#[test]
fn navigation_groups_by_first_character() {
    let g = Generator::new(false, config_with_headers(&["1. Intro", "2. Guide"]));
    let n = g.generate_navigation(vec![nav("2.1", "B", "b"), nav("1.2", "A2", "a2"), nav("1.1", "A", "a")]);
    assert_eq!(n.len(), 2);
    assert_eq!(n[0].title, "1. Intro");
    assert_eq!(n[0].items.iter().map(|s| s.title_slug.clone()).collect::<Vec<_>>(), vec!["a", "a2"]);
    assert_eq!(n[1].title, "2. Guide");
    assert_eq!(n[1].items.iter().map(|s| s.title_slug.clone()).collect::<Vec<_>>(), vec!["b"]);
}

#[test]
fn navigation_runs_out_of_headers() {
    let g = Generator::new(false, config_with_headers(&["1. Intro"]));
    let n = g.generate_navigation(vec![nav("1", "A", "a"), nav("2", "B", "b"), nav("3", "C", "c")]);
    let titles: Vec<String> = n.iter().map(|m| m.title.clone()).collect();
    assert_eq!(titles, vec!["1. Intro", "none", "none"]);
    let all: Vec<String> = n.iter().flat_map(|m| m.items.iter().map(|s| s.title_slug.clone())).collect();
    assert_eq!(all, vec!["a", "b", "c"]);
}

#[test]
fn navigation_first_header_may_stay_empty() {
    let g = Generator::new(false, config_with_headers(&["2. Later", "1. First"]));
    let n = g.generate_navigation(vec![nav("1", "A", "a")]);
    assert_eq!(n.len(), 2);
    assert!(n[0].items.is_empty());
    assert_eq!(n[1].title, "1. First");
}

#[test]
fn posts_sorted_by_order_then_newest_date() {
    let posts = vec![post("a", "2", "2020"), post("b", "1", "2019"), post("c", "1", "2021"), post("d", "1", "2021")];
    let s = Generator::sort_posts(posts);
    let slugs: Vec<String> = s.iter().map(|p| p.title_slug.clone()).collect();
    assert_eq!(slugs, vec!["c", "d", "b", "a"]);
}

#[test]
fn sorting_sorted_posts_changes_nothing() {
    let posts = vec![post("c", "1", "2021"), post("b", "1", "2019"), post("a", "2", "2020")];
    let once = Generator::sort_posts(posts);
    let slugs: Vec<String> = once.iter().map(|p| p.title_slug.clone()).collect();
    let twice = Generator::sort_posts(once);
    let again: Vec<String> = twice.iter().map(|p| p.title_slug.clone()).collect();
    assert_eq!(slugs, again);
}

#[test]
fn first_n_elements_come_from_the_front() {
    let mut v = vec![post("a", "", ""), post("b", "", ""), post("c", "", ""), post("d", "", "")];
    let taken = get_first_n_elements(&mut v, 2);
    assert_eq!(taken.iter().map(|p| p.title_slug.clone()).collect::<Vec<_>>(), vec!["a", "b"]);
    assert_eq!(v.iter().map(|p| p.title_slug.clone()).collect::<Vec<_>>(), vec!["c", "d"]);
    assert!(get_first_n_elements(&mut v, 0).is_empty());
    assert!(get_first_n_elements(&mut v, -3).is_empty());
    assert_eq!(v.len(), 2);
}

#[test]
fn pages_of_the_index() {
    let mut c = InkerConfig::new(None).unwrap();
    c.posts_per_page = 2;
    let g = Generator::new(false, c);
    let mut rest = vec![post("a", "", ""), post("b", "", ""), post("c", "", "")];
    let first = g.next_page(&mut rest, 1);
    assert!(first.write_index && first.posts_left);
    assert_eq!(
        first.posts.unwrap().iter().map(|p| p.title_slug.clone()).collect::<Vec<_>>(),
        vec!["a", "b"]
    );
    let second = g.next_page(&mut rest, 2);
    assert!(!second.write_index && !second.posts_left);
    assert_eq!(second.posts.unwrap().iter().map(|p| p.title_slug.clone()).collect::<Vec<_>>(), vec!["c"]);
    assert!(rest.is_empty());
    let empty = g.next_page(&mut rest, 3);
    assert!(empty.posts.is_none() && !empty.posts_left);
}

#[test]
fn negative_page_size_shows_all_at_once() {
    let mut c = InkerConfig::new(None).unwrap();
    c.posts_per_page = -1;
    let g = Generator::new(false, c);
    let mut rest = vec![post("a", "", ""), post("b", "", "")];
    let step = g.next_page(&mut rest, 1);
    assert!(!step.posts_left);
    assert_eq!(step.posts.unwrap().len(), 2);
}

#[test]
fn output_paths() {
    let g = Generator::new(false, InkerConfig::new(None).unwrap());
    assert_eq!(g.output_folder, "build");
    let p = Generator::new(true, InkerConfig::new(None).unwrap());
    assert_eq!(p.output_folder, "publish");
    let site = InkerConfig::new(Some("base-url: 'https://example.org/site/'\n")).unwrap();
    assert_eq!(Generator::new(true, site).config.base_url, "https://example.org/site/");
    let site = InkerConfig::new(Some("base-url: 'https://example.org/site/'\n")).unwrap();
    assert_eq!(Generator::new(false, site).config.base_url, "/");
    assert_eq!(g.static_folder(), "build/static");
    assert_eq!(g.posts_output_folder(), "build/posts");
    assert_eq!(g.post_output_folder("x"), "build/posts/x/");
    assert_eq!(g.post_output_path("x"), "build/posts/x/index.html");
    assert_eq!(Generator::post_source_folder("x"), "posts/x");
    assert_eq!(Generator::extra_source_path("p.md"), "content/p.md");
    assert_eq!(g.extra_output_folder("projects"), "build/projects");
    assert_eq!(g.extra_output_path("projects"), "build/projects/index.html");
    assert_eq!(g.index_path(), "build/index.html");
    assert_eq!(g.nav_path(), "build/nav.html");
    assert_eq!(g.pages_folder(), "build/page");
    assert_eq!(g.page_folder(12), "build/page/12");
    assert_eq!(g.page_path(3), "build/page/3/index.html");
    assert_eq!(join_path("a", "b"), "a/b");
}

#[test]
fn pages_show_every_post_once() {
    let mut c = InkerConfig::new(None).unwrap();
    c.posts_per_page = 2;
    let g = Generator::new(false, c);
    let mut rest: Vec<Post> = ["a", "b", "c", "d", "e"].iter().map(|s| post(s, "", "")).collect();
    let mut pages: Vec<Vec<String>> = Vec::new();
    let mut counter = 1;
    loop {
        let step = g.next_page(&mut rest, counter);
        assert_eq!(step.write_index, counter == 1);
        pages.push(step.posts.unwrap().iter().map(|p| p.title_slug.clone()).collect());
        counter += 1;
        if !step.posts_left {
            break;
        }
    }
    assert_eq!(pages, vec![vec!["a", "b"], vec!["c", "d"], vec!["e"]]);
}

#[test]
fn pages_of_an_exact_multiple_end_after_the_last_full_page() {
    let mut c = InkerConfig::new(None).unwrap();
    c.posts_per_page = 2;
    let g = Generator::new(false, c);
    let mut rest: Vec<Post> = ["a", "b", "c", "d"].iter().map(|s| post(s, "", "")).collect();
    let first = g.next_page(&mut rest, 1);
    assert!(first.posts_left);
    let second = g.next_page(&mut rest, 2);
    assert!(!second.posts_left);
    assert_eq!(second.posts.unwrap().iter().map(|p| p.title_slug.clone()).collect::<Vec<_>>(), vec!["c", "d"]);
    assert!(rest.is_empty());
}

#[test]
fn templates_receive_the_site_links() {
    let site = InkerConfig::new(Some("base-url: 'https://example.org/'\nicon-path: 'static/i.png'\nwebsite-name: 'w'\npagination: true\n")).unwrap();
    let g = Generator::new(true, site);
    let links = g.page_links();
    assert_eq!(links.icon_path, "static/i.png");
    assert_eq!(links.base_url, "https://example.org/");
    let header = g.index_header(Some(3));
    assert!(header.pagination_enabled);
    assert_eq!(header.website_name, "w");
    assert_eq!(header.page_counter, Some(3));
    assert_eq!(header.links.base_url, "https://example.org/");
    let info = inker::config::ContentInfo::new("p.md".to_string(), "p.html".to_string(), "projects".to_string());
    let page = g.extra_page(&info, "x");
    assert_eq!(page.links.icon_path, "static/i.png");
    assert_eq!(page.links.base_url, "https://example.org/");
}

#[test]
fn what_follows_the_posts() {
    let mut c = InkerConfig::new(None).unwrap();
    c.generate_nav = true;
    let g = Generator::new(false, c);
    assert!(matches!(g.after_posts(0), AfterPosts::NothingToGenerate));
    assert!(matches!(g.after_posts(2), AfterPosts::Finish { navigation: true }));
    let g = Generator::new(false, InkerConfig::new(None).unwrap());
    assert!(matches!(g.after_posts(1), AfterPosts::Finish { navigation: false }));
}
