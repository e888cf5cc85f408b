use inker::config::{ConfigError, InkerConfig, DEFAULT_CONFIG};

#[test]
fn default_configuration_values() {
    let c = InkerConfig::new(None).unwrap();
    assert_eq!(c.base_url, "/");
    assert_eq!(c.port, 8080);
    assert_eq!(c.website_name, "inker website");
    assert_eq!(c.template_name, "bs-darkly");
    assert_eq!(c.posts_per_page, 4);
    assert!(!c.pagination);
    assert!(!c.generate_nav);
    assert_eq!(c.icon_path, "none");
    assert!(c.extra_contents.is_empty());
    assert!(c.headers.is_empty());
}

#[test]
fn default_text_is_the_default_file() {
    let a = InkerConfig::new(None).unwrap();
    let b = InkerConfig::new(Some(DEFAULT_CONFIG)).unwrap();
    assert_eq!(a.port, b.port);
    assert_eq!(a.website_name, b.website_name);
    assert_eq!(a.posts_per_page, b.posts_per_page);
}

#[test]
fn port_given_as_text_is_parsed() {
    let c = InkerConfig::new(Some("port: \"3000\"\n")).unwrap();
    assert_eq!(c.port, 3000);
}

#[test]
fn port_given_as_number_is_read() {
    let c = InkerConfig::new(Some("port: 3000\n")).unwrap();
    assert_eq!(c.port, 3000);
    assert_eq!(c.website_name, "inker website");
    assert_eq!(c.posts_per_page, 4);
}

#[test]
fn port_number_out_of_range_is_an_error() {
    let r = InkerConfig::new(Some("port: 70000\n"));
    assert_eq!(r.err(), Some(ConfigError::InvalidPort));
}

#[test]
fn numbers_and_flags_given_unquoted_are_read() {
    let c = InkerConfig::new(Some("posts-per-page: 7\npagination: true\n")).unwrap();
    assert_eq!(c.posts_per_page, 7);
    assert!(c.pagination);
}

#[test]
fn generate_nav_is_read_from_text_only() {
    let c = InkerConfig::new(Some("generate-nav: true\n")).unwrap();
    assert!(!c.generate_nav);
    let c = InkerConfig::new(Some("generate-nav: \"true\"\n")).unwrap();
    assert!(c.generate_nav);
}

#[test]
fn posts_per_page_number_out_of_range_is_an_error() {
    let r = InkerConfig::new(Some("posts-per-page: 3000000000\n"));
    assert_eq!(r.err(), Some(ConfigError::InvalidPostsPerPage));
}

#[test]
fn base_url_is_read() {
    let c = InkerConfig::new(Some("base-url: 'https://mark.github.io/my-website/'\n")).unwrap();
    assert_eq!(c.base_url, "https://mark.github.io/my-website/");
    assert_eq!(c.port, 8080);
}

#[test]
fn base_url_defaults_to_the_root() {
    assert_eq!(InkerConfig::new(None).unwrap().base_url, "/");
}

#[test]
fn full_configuration_is_read() {
    let text = "website-name: \"my site\"\ntemplate-name: \"docs\"\nposts-per-page: \"10\"\npagination: \"true\"\ngenerate-nav: \"true\"\nicon-path: \"static/icon.png\"\nextra:\n  - { projects.md: \"projects.html\", visible-name: \"projects\" }\nheaders:\n  - \"1. Intro\"\n  - \"2. Guide\"\n";
    let c = InkerConfig::new(Some(text)).unwrap();
    assert_eq!(c.website_name, "my site");
    assert_eq!(c.template_name, "docs");
    assert_eq!(c.posts_per_page, 10);
    assert!(c.pagination);
    assert!(c.generate_nav);
    assert_eq!(c.icon_path, "static/icon.png");
    assert_eq!(c.extra_contents.len(), 1);
    assert_eq!(c.extra_contents[0].content_src, "projects.md");
    assert_eq!(c.extra_contents[0].template_src, "projects.html");
    assert_eq!(c.extra_contents[0].title, "projects");
    assert_eq!(c.headers, vec!["1. Intro".to_string(), "2. Guide".to_string()]);
    assert_eq!(c.template_folder(), "templates/docs");
}

#[test]
fn underscore_nav_key_is_not_read() {
    let c = InkerConfig::new(Some("generate_nav: \"true\"\n")).unwrap();
    assert!(!c.generate_nav);
}

#[test]
fn invalid_port_is_an_error() {
    let r = InkerConfig::new(Some("port: \"70000\"\n"));
    assert_eq!(r.err(), Some(ConfigError::InvalidPort));
}

#[test]
fn invalid_posts_per_page_is_an_error() {
    let r = InkerConfig::new(Some("posts-per-page: \"four\"\n"));
    assert_eq!(r.err(), Some(ConfigError::InvalidPostsPerPage));
}

#[test]
fn invalid_pagination_is_an_error() {
    let r = InkerConfig::new(Some("pagination: \"yes\"\n"));
    assert_eq!(r.err(), Some(ConfigError::InvalidPagination));
}

#[test]
fn invalid_generate_nav_is_an_error() {
    let r = InkerConfig::new(Some("generate-nav: \"1\"\n"));
    assert_eq!(r.err(), Some(ConfigError::InvalidGenerateNav));
}

#[test]
fn the_first_invalid_setting_decides() {
    let r = InkerConfig::new(Some("pagination: \"yes\"\nport: \"x\"\n"));
    assert_eq!(r.err(), Some(ConfigError::InvalidPort));
}

#[test]
fn extra_that_is_no_list_is_an_error() {
    let r = InkerConfig::new(Some("extra: \"projects.md\"\n"));
    assert_eq!(r.err(), Some(ConfigError::InvalidExtra));
}

#[test]
fn extra_entry_with_number_is_an_error() {
    let r = InkerConfig::new(Some("extra:\n  - { projects.md: 3 }\n"));
    assert_eq!(r.err(), Some(ConfigError::InvalidExtra));
}

#[test]
fn headers_with_number_is_an_error() {
    let r = InkerConfig::new(Some("headers:\n  - 1\n"));
    assert_eq!(r.err(), Some(ConfigError::InvalidHeaders));
}

#[test]
fn yaml_syntax_error_is_reported() {
    let r = InkerConfig::new(Some("port: [\n"));
    assert_eq!(r.err(), Some(ConfigError::Syntax));
}

#[test]
fn empty_file_has_no_document() {
    let r = InkerConfig::new(Some(""));
    assert_eq!(r.err(), Some(ConfigError::NoDocument));
}

#[test]
fn configuration_that_is_no_mapping_uses_defaults() {
    let c = InkerConfig::new(Some("- a\n- b\n")).unwrap();
    assert_eq!(c.port, 8080);
    assert_eq!(c.template_name, "bs-darkly");
}

#[test]
fn folders_are_fixed() {
    assert_eq!(InkerConfig::build_folder(), "build");
    assert_eq!(InkerConfig::content_folder(), "content");
    assert_eq!(InkerConfig::posts_folder(), "posts");
    assert_eq!(InkerConfig::publish_folder(), "publish");
}

#[test]
fn post_template_text() {
    let t = InkerConfig::post_template("title: \"t\"", "2020-01-01T00:00:00+00:00");
    assert_eq!(
        t,
        "---\ntitle: \"t\"\ndate: 2020-01-01T00:00:00+00:00 # this field is mandatory to have \n---\nenter your content here"
    );
}

#[test]
fn current_time_is_rfc3339() {
    assert_eq!(InkerConfig::current_time(0, 0).unwrap(), "1970-01-01T00:00:00+00:00");
    assert_eq!(
        InkerConfig::current_time(1_431_648_000, 500_000_000).unwrap(),
        "2015-05-15T00:00:00.500+00:00"
    );
    assert!(InkerConfig::current_time(i64::MAX, 0).is_none());
}
