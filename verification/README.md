# emmett

A static site generator for a blog, written in Verus: Markdown posts with a
YAML front matter become HTML pages, category and tag indexes, a sitemap and
an Atom feed.

- `src/` is the verified library: paths and URLs of posts, the front matter,
  the Markdown conversion (heading anchors, code blocks, alerts), the indexes,
  the sitemap, the feed, and the steps of a run. Outside crates
  (`pulldown-cmark`, `gray_matter`, `chrono`, `xml-rs`, `atom_syndication`,
  `regex`, `slug`, ...) are called through small trusted wrappers whose
  contracts say what the library relies on.
- `app/` is the program: it reads the configuration, the templates and the
  files, renders the pages with `tera`, and writes the site.
- `tests/` runs the library on concrete values.
