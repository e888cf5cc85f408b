# inker

A static site generator: posts are markdown files with YAML metadata under
`posts/`, rendered with Tera templates into `build/` (served locally, with live
reload) or `publish/`.

Commands: `new <name>`, `delete <name>`, `deleteall`, `clean`, `build`
(writes `publish/` and `build/`, then serves `build/`), `server` and
`livereload` (serve `build/`, regenerating it on changes). Settings in
`config.yaml`: `base-url`, `port`, `website-name`,
`template-name`, `posts-per-page`, `pagination`, `generate-nav`, `icon-path`,
`extra`, `headers`.

Layout:

- `src/` is the library, verified with Verus: the command line (`cli`), the
  configuration (`config`, with `numeric` for its numbers and `yaml` for the
  YAML documents), the metadata fence of a post (`frontmatter`), posts
  (`post`), the navigation (`navigation`), index order and pages
  (`pagination`, with `sort`), the generator's decisions and output paths
  (`generate`), post locations and copy filters (`file_handler`),
  the web server's answers (`webserver`), and text helpers (`text`).
- `app/` is the program around it: reading and writing files, rendering with
  Tera, and serving with actix-web.
- `tests/` runs the library on concrete inputs.
