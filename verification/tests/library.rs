use emmett::config::Settings;
use emmett::content::{
    convert_md_to_html, get_ancestor_directories_names, get_ancestor_directories_paths,
    get_output_directory_for_post, get_posts, get_posts_per_indexes, get_posts_per_tags,
    parse_post, split_front_matter, write_indexes_html, GitHubSlugifier, Slugify,
};
use emmett::errors::{ErrorKind, SiteError};
use emmett::markdown::FenceSettings;
use emmett::post::custom_date_format;
use emmett::post::parse_tags;
use emmett::post::{FrontMatter, Post, PostStatus, RawFrontMatter, MAX_TIMESTAMP, MIN_TIMESTAMP};
use emmett::rss::{write_atom_for_posts, AtomFeedError};
use emmett::sitemap::write_sitemap_for_posts;
use emmett::sort::sort_positions;
use emmett::startup::{run, RunAction, RunState, StepOutcome};
use emmett::templates::filters::MarkdownFilter;
use emmett::text::{join_strings, push_decimal};

fn raw(title: &str, slug: &str, date: &str) -> RawFrontMatter {
    RawFrontMatter {
        title: title.to_owned(),
        slug: slug.to_owned(),
        date: date.to_owned(),
        status: None,
        category: None,
        tags: None,
        updated_at: None,
        toc: None,
    }
}

fn post_at(path: &str, slug: &str, date: &str, tags: Option<&str>, status: Option<&str>) -> Post {
    let mut r = raw("A title", slug, date);
    r.tags = tags.map(|t| t.to_owned());
    r.status = status.map(|s| s.to_owned());
    parse_post(Some(r), None, "Some *text*".to_owned(), path, "content", "blog").expect("post")
}

fn settings() -> Settings {
    let mut s = Settings::default();
    s.blog_prefix_path = "blog".to_owned();
    s.output_path = "output".to_owned();
    s.posts_path = "content".to_owned();
    s.create_index_for = vec!["/fr".to_owned(), "/fr/tech".to_owned()];
    s
}

#[test]
fn chrono_range_matches_the_constants() {
    assert_eq!(chrono::DateTime::<chrono::Utc>::MIN_UTC.timestamp(), MIN_TIMESTAMP);
    assert_eq!(chrono::DateTime::<chrono::Utc>::MAX_UTC.timestamp(), MAX_TIMESTAMP);
}

#[test]
fn slugifier_numbers_repeated_headings() {
    let mut s = GitHubSlugifier::default();
    assert_eq!(s.slugify("Hello World!".to_owned()), "hello-world");
    assert_eq!(s.slugify("Hello World!".to_owned()), "hello-world-1");
    assert_eq!(s.slugify("Hello World".to_owned()), "hello-world-2");
    assert_eq!(s.slugify("Autre Titre".to_owned()), "autre-titre");
}

#[test]
fn ancestor_directories() {
    assert_eq!(
        get_ancestor_directories_paths("content/fr/a.md"),
        vec!["content".to_owned(), "content/fr".to_owned()]
    );
    assert_eq!(
        get_ancestor_directories_names("content/fr/a.md"),
        vec!["content".to_owned(), "fr".to_owned()]
    );
    assert_eq!(
        get_ancestor_directories_paths("/content/a.md"),
        vec!["/".to_owned(), "/content".to_owned()]
    );
    assert!(get_ancestor_directories_paths("a.md").is_empty());
}

#[test]
fn decimal_digits() {
    let mut out: Vec<char> = Vec::new();
    push_decimal(&mut out, 4096);
    assert_eq!(out.iter().collect::<String>(), "4096");
    let mut zero: Vec<char> = Vec::new();
    push_decimal(&mut zero, 0);
    assert_eq!(zero.iter().collect::<String>(), "0");
}

#[test]
fn join_with_separator() {
    let parts = vec!["a".to_owned(), "b".to_owned(), "c".to_owned()];
    assert_eq!(join_strings(&parts, ","), "a,b,c");
    assert_eq!(join_strings(&[], ","), "");
}

#[test]
fn tags_are_trimmed_and_lower_case() {
    let tags = parse_tags::deserialize(Some(" Rust, Vim ,LINUX")).unwrap();
    assert_eq!(tags, vec!["rust".to_owned(), "vim".to_owned(), "linux".to_owned()]);
    assert_eq!(parse_tags::deserialize(None), None);
    assert_eq!(parse_tags::serialize(&Some(tags)), "rust,vim,linux");
    assert_eq!(parse_tags::serialize(&None), "");
}

#[test]
fn dates_read_and_write() {
    let d = custom_date_format::deserialize("2019-09-04 17:20:00+01:00").unwrap();
    assert_eq!(d.offset, 3600);
    assert_eq!(d.timestamp, 1567614000);
    assert_eq!(custom_date_format::serialize(&d), "2019-09-04 17:20:00+0100");
    assert!(custom_date_format::deserialize("not a date").is_err());
}

#[test]
fn front_matter_with_unknown_status_does_not_read() {
    let mut r = raw("T", "t", "2020-01-01 10:00:00+00:00");
    r.status = Some("published".to_owned());
    assert!(FrontMatter::from_raw(r).is_none());
    let mut r = raw("T", "t", "2020-01-01 10:00:00+00:00");
    r.status = Some("draft".to_owned());
    assert_eq!(FrontMatter::from_raw(r).unwrap().status, Some(PostStatus::Draft));
}

#[test]
fn post_parts_and_urls() {
    let p = post_at("content/fr/tech/a.md", "été", "2020-01-01 10:00:00+00:00", Some("Rust"), None);
    assert_eq!(p.url_path, "blog/fr/tech/été/");
    assert_eq!(p.url_path_encoded, "blog/fr/tech/%C3%A9t%C3%A9/");
    assert_eq!(p.ancestor_directories_names, vec!["fr".to_owned(), "tech".to_owned()]);
    assert_eq!(p.date_rfc3339, "2020-01-01T10:00:00+00:00");
    assert_eq!(
        get_output_directory_for_post("output".to_owned(), &p),
        "output/blog/fr/tech/été/"
    );
}

#[test]
fn drafts_are_kept_only_when_published() {
    let a = post_at("content/fr/a.md", "a", "2020-01-01 10:00:00+00:00", None, Some("draft"));
    let b = post_at("content/fr/b.md", "b", "2020-01-02 10:00:00+00:00", None, None);
    let kept = get_posts(vec![Some(a), None, Some(b)], false);
    assert_eq!(kept.len(), 1);
    assert_eq!(kept[0].front_matter.slug, "b");
    let a = post_at("content/fr/a.md", "a", "2020-01-01 10:00:00+00:00", None, Some("draft"));
    let b = post_at("content/fr/b.md", "b", "2020-01-02 10:00:00+00:00", None, None);
    let kept = get_posts(vec![Some(a), None, Some(b)], true);
    assert_eq!(kept.len(), 2);
}

#[test]
fn posts_grouped_by_tag_and_index() {
    let posts = vec![
        post_at("content/fr/tech/a.md", "a", "2020-01-01 10:00:00+00:00", Some("rust, vim"), None),
        post_at("content/fr/b.md", "b", "2021-01-01 10:00:00+00:00", Some("vim"), None),
    ];
    let tags = get_posts_per_tags(&posts);
    assert_eq!(tags.len(), 3);
    assert_eq!(tags[0], ("fr/tags/tech/rust".to_owned(), vec![0]));
    assert_eq!(tags[1], ("fr/tags/tech/vim".to_owned(), vec![0]));
    assert_eq!(tags[2], ("fr/tags//vim".to_owned(), vec![1]));

    let s = settings();
    let indexes = get_posts_per_indexes(&posts, &s);
    assert_eq!(indexes.len(), 2);
    assert_eq!(indexes[0], ("/fr".to_owned(), vec![0, 1]));
    assert_eq!(indexes[1], ("/fr/tech".to_owned(), vec![0]));

    let pages = write_indexes_html(&indexes, &posts, &s, false);
    assert_eq!(pages.len(), 2);
    // Newest first.
    assert_eq!(pages[0].posts, vec![1, 0]);
    assert_eq!(pages[0].title, "Articles - /fr");
    assert_eq!(pages[0].tag_name, None);
    assert_eq!(pages[0].categories, vec!["fr".to_owned()]);
    assert_eq!(pages[0].url_path, "/fr");
    assert_eq!(pages[0].output_directory, "output/blog//fr");

    let tag_pages = write_indexes_html(&tags, &posts, &s, true);
    assert_eq!(tag_pages[0].tag_name, Some("rust".to_owned()));
    assert_eq!(
        tag_pages[0].categories,
        vec!["fr".to_owned(), "tags".to_owned(), "tech".to_owned(), "rust".to_owned()]
    );
}

#[test]
fn sort_positions_is_stable() {
    let keys: Vec<i128> = vec![5, 1, 5, 3];
    assert_eq!(sort_positions(&keys, &vec![0, 1, 2, 3], false), vec![1, 3, 0, 2]);
    assert_eq!(sort_positions(&keys, &vec![0, 1, 2, 3], true), vec![0, 2, 3, 1]);
}

#[test]
fn markdown_headings_get_anchors() {
    let s = Settings::default();
    assert_eq!(convert_md_to_html("# Title", &s, None), "<h1 id=\"title\">Title</h1>\n");
    assert_eq!(
        convert_md_to_html("# Same\n\n# Same", &s, None),
        "<h1 id=\"same\">Same</h1>\n<h1 id=\"same-1\">Same</h1>\n"
    );
    assert_eq!(
        convert_md_to_html("# Mine {#custom}", &s, None),
        "<h1 id=\"custom\">Mine</h1>\n"
    );
}

#[test]
fn markdown_code_blocks_are_escaped() {
    let s = Settings::default();
    assert_eq!(
        convert_md_to_html("```rust\nif a < b {}\n```", &s, None),
        "<pre><code class=\"language-rust\">if a &lt; b {}\n</code></pre>\n"
    );
    assert_eq!(
        convert_md_to_html("```\nx\n```", &s, None),
        "<pre><code>x\n</code></pre>\n"
    );
}

#[test]
fn decorated_markdown_headings() {
    let s = Settings::default();
    let html = emmett::markdown::convert_md_to_html("## Hi there", &s, None);
    assert!(html.starts_with("<div class=\"markdown-heading\">\n<h2 id=\"hi-there\">Hi there</h2>\n<a href=\"#hi-there\""));
    assert!(html.ends_with("</a>\n</div>\n"));
}

#[test]
fn fence_language_is_the_last_plain_token() {
    assert_eq!(FenceSettings::new("rust").language, Some("rust".to_owned()));
    assert_eq!(FenceSettings::new("rust,linenos").language, Some("rust".to_owned()));
    assert_eq!(FenceSettings::new("linenos, hl_lines=1").language, None);
    assert_eq!(FenceSettings::new("").language, None);
}

#[test]
fn markdown_filter_renders_markdown() {
    let f = MarkdownFilter::new(Settings::default()).unwrap();
    assert_eq!(f.filter("*a*"), Some("<p><em>a</em></p>\n".to_owned()));
}

#[test]
fn front_matter_split() {
    let parts = split_front_matter("---\ntitle: T\n---\nIntro\n<!-- TEASER_END -->\nRest\n");
    assert!(parts.data.is_some());
    assert_eq!(parts.excerpt, Some("Intro".to_owned()));
    assert!(parts.content.contains("Rest"));
}

#[test]
fn sitemap_lists_posts_oldest_first() {
    let posts = vec![
        post_at("content/fr/b.md", "b", "2021-01-01 10:00:00+00:00", None, None),
        post_at("content/fr/a.md", "a", "2020-01-01 10:00:00+00:00", None, None),
    ];
    let bytes = write_sitemap_for_posts(&posts, "https://ex.org").unwrap();
    let xml = String::from_utf8(bytes).unwrap();
    assert!(xml.contains("<urlset xmlns=\"http://www.sitemaps.org/schemas/sitemap/0.9\">"));
    let a = xml.find("<loc>https://ex.org/blog/fr/a/</loc>").unwrap();
    let b = xml.find("<loc>https://ex.org/blog/fr/b/</loc>").unwrap();
    assert!(a < b);
    assert!(xml.contains("<lastmod>2020-01-01T10:00:00+00:00</lastmod>"));
}

#[test]
fn atom_feed_of_posts() {
    let posts = vec![
        post_at("content/fr/b.md", "b", "2021-01-01 10:00:00+00:00", None, None),
        post_at("content/fr/a.md", "a", "2020-01-01 10:00:00+00:00", None, None),
    ];
    let bytes = write_atom_for_posts(&posts, "https://ex.org", "Me", "My site", &Settings::default())
        .ok()
        .unwrap();
    let xml = String::from_utf8(bytes).unwrap();
    assert!(xml.contains("<title>My site</title>"));
    assert!(xml.contains("<id>https://ex.org/</id>"));
    assert!(xml.contains("<updated>2021-01-01T10:00:00+00:00</updated>"));
    let a = xml.find("<id>https://ex.org/blog/fr/a/</id>").unwrap();
    let b = xml.find("<id>https://ex.org/blog/fr/b/</id>").unwrap();
    assert!(a < b);
    assert!(!matches!(
        write_atom_for_posts(&posts, "https://ex.org", "Me", "My site", &Settings::default()),
        Err(AtomFeedError::TooManyHeadings)
    ));
}

#[test]
fn run_steps_in_order() {
    let (s, a) = run(true, RunState::Start, StepOutcome::Done);
    assert!(matches!(s, RunState::LoadingSite));
    assert!(matches!(a, RunAction::LoadSite));
    let (s, a) = run(true, s, StepOutcome::Done);
    assert!(matches!(s, RunState::CreatingContent));
    assert!(matches!(a, RunAction::CreateContent { publish_drafts: true }));
    let (s, a) = run(true, s, StepOutcome::Done);
    assert!(matches!(s, RunState::CopyingStatic));
    assert!(matches!(a, RunAction::CopyStatic));
    let (s, a) = run(true, s, StepOutcome::Done);
    assert!(matches!(s, RunState::Finished(Ok(()))));
    assert!(matches!(a, RunAction::Finish(Ok(()))));
}

#[test]
fn run_without_site_ends_without_error() {
    let (s, a) = run(false, RunState::LoadingSite, StepOutcome::Failed("no templates".to_owned()));
    assert!(matches!(s, RunState::Finished(Ok(()))));
    assert!(matches!(a, RunAction::Finish(Ok(()))));
}

#[test]
fn run_reports_a_content_failure() {
    let (s, a) = run(false, RunState::CreatingContent, StepOutcome::Failed("disk full".to_owned()));
    assert!(matches!(s, RunState::Finished(Err(ref e)) if e == "disk full"));
    assert!(matches!(a, RunAction::Finish(Err(ref e)) if e == "disk full"));
    let (_, a) = run(false, s, StepOutcome::Done);
    assert!(matches!(a, RunAction::Finish(Err(ref e)) if e == "disk full"));
}

#[test]
fn errors_carry_their_message() {
    let e = SiteError::msg("boom");
    assert_eq!(e.message(), Some("boom".to_owned()));
    assert!(e.source.is_none());
    let c = SiteError::chain("outer", e);
    assert_eq!(c.message(), Some("outer".to_owned()));
    assert_eq!(c.source.unwrap().message(), Some("boom".to_owned()));
    let io: SiteError = std::io::Error::new(std::io::ErrorKind::Other, "x").into();
    assert!(matches!(io.kind, ErrorKind::Io(_)));
    assert_eq!(io.message(), None);
}

#[test]
fn collisions_are_listed() {
    let e = SiteError::from_collisions(vec![(
        "blog/a/".to_owned(),
        vec!["a.md".to_owned(), "b \"c\".md".to_owned()],
    )]);
    assert_eq!(
        e.message(),
        Some("Found path collisions:\n- `blog/a/` from files [\"a.md\", \"b \\\"c\\\".md\"]\n".to_owned())
    );
}

#[test]
fn site_content_of_posts_and_pages() {
    let parsed_posts = vec![
        Some(post_at("content/fr/tech/a.md", "a", "2020-01-01 10:00:00+00:00", Some("rust"), None)),
        None,
        Some(post_at("content/fr/b.md", "b", "2021-01-01 10:00:00+00:00", None, Some("draft"))),
    ];
    let mut r = raw("About", "about", "2019-01-01 10:00:00+00:00");
    r.toc = Some(false);
    let page = parse_post(Some(r), None, "# About".to_owned(), "pages/about.md", "pages", "").unwrap();
    let mut s = settings();
    s.base_url = "https://ex.org".to_owned();
    s.author = "Me".to_owned();
    s.website_title = "Site".to_owned();
    let c = emmett::content::create_content(parsed_posts, vec![Some(page)], false, &s).unwrap();
    assert_eq!(c.posts.len(), 1);
    assert_eq!(c.posts[0].front_matter.slug, "a");
    assert_eq!(c.post_pages.len(), 1);
    assert_eq!(c.post_pages[0].output_directory, "output/blog/fr/tech/a/");
    assert_eq!(c.post_pages[0].post_content, "<p>Some <em>text</em></p>\n");
    assert_eq!(c.post_pages[0].tags_urls, vec![("rust".to_owned(), "blog/fr/tags/tech/rust".to_owned())]);
    assert_eq!(c.post_pages[0].description, "A title");
    assert_eq!(c.indexes.len(), 2);
    assert_eq!(c.tag_indexes.len(), 1);
    assert_eq!(c.pages.len(), 1);
    assert_eq!(c.page_pages[0].url_path, "about/");
    assert_eq!(c.page_pages[0].post_content, "<h1 id=\"about\">About</h1>\n");
    let sitemap = String::from_utf8(c.sitemap.unwrap()).unwrap();
    assert!(sitemap.contains("<loc>https://ex.org/blog/fr/tech/a/</loc>"));
    assert!(sitemap.contains("<loc>https://ex.org/about/</loc>"));
    let atom = String::from_utf8(c.atom.ok().unwrap()).unwrap();
    assert!(atom.contains("<id>https://ex.org/blog/fr/tech/a/</id>"));
    assert!(!atom.contains("blog/fr/b/"));
}

#[test]
fn post_page_parts_from_outside_crates() {
    let mut r = raw("Title", "t", "2020-01-01 10:00:00+00:00");
    r.tags = Some("Rust Lang".to_owned());
    r.toc = Some(true);
    let post = parse_post(
        Some(r),
        Some("An *excerpt*".to_owned()),
        "# A\n\n## B".to_owned(),
        "content/fr/t.md",
        "content",
        "blog",
    )
    .unwrap();
    let page = emmett::content::post_page(&post, &settings()).unwrap();
    assert_eq!(page.tags_urls, vec![("rust lang".to_owned(), "blog/fr/tags//rust-lang".to_owned())]);
    assert_eq!(page.description, "An excerpt");
    let toc = page.toc.unwrap();
    assert!(toc.contains("<a href=\"#a\">A</a>"));
    assert!(toc.contains("<a href=\"#b\">B</a>"));
    assert_eq!(page.created_at, "2020-01-01T10:00:00+00:00");
}

#[test]
fn feed_without_posts_is_written() {
    let bytes = write_atom_for_posts(&[], "https://ex.org", "Me", "Empty", &Settings::default())
        .ok()
        .unwrap();
    let xml = String::from_utf8(bytes).unwrap();
    assert!(xml.contains("<title>Empty</title>"));
    assert!(xml.contains("<updated>"));
    assert!(!xml.contains("<entry>"));
}

#[test]
fn error_kinds_from_outside_errors() {
    let t: SiteError = tera::Error::msg("bad template").into();
    assert!(matches!(t.kind, ErrorKind::Tera(_)));
    assert_eq!(t.to_text(), "bad template");
    assert_eq!(SiteError::msg("boom").to_text(), "boom");
    let s: SiteError = String::from("plain").into();
    assert_eq!(s.message(), Some("plain".to_owned()));
}

#[test]
fn empty_markdown_gives_empty_html() {
    let s = Settings::default();
    assert_eq!(convert_md_to_html("", &s, None), "");
    assert_eq!(convert_md_to_html("Plain *text*", &s, None), "<p>Plain <em>text</em></p>\n");
}

#[test]
fn leap_second_is_kept() {
    let d = custom_date_format::deserialize("2016-12-31 23:59:60+00:00").unwrap();
    assert_eq!(d.nanosecond, 1_000_000_000);
    assert_eq!(custom_date_format::serialize(&d), "2016-12-31 23:59:60+0000");
}

#[test]
fn safe_slug_is_not_encoded() {
    let mut fm = raw("T", "plain-slug_1.x", "2020-01-01 10:00:00+00:00");
    fm.toc = None;
    let fm = FrontMatter::from_raw(fm).unwrap();
    let fm = Some(fm);
    assert_eq!(
        emmett::content::extract_path_url_for_post(&fm, "content/fr/a.md", "content", "blog", true),
        emmett::content::extract_path_url_for_post(&fm, "content/fr/a.md", "content", "blog", false)
    );
}

#[test]
fn unpublished_run_drops_only_drafts() {
    let a = || post_at("content/fr/a.md", "a", "2020-01-01 10:00:00+00:00", None, Some("draft"));
    let b = || post_at("content/fr/b.md", "b", "2020-01-02 10:00:00+00:00", None, None);
    let with = get_posts(vec![Some(a()), Some(b())], true);
    let without = get_posts(vec![Some(a()), Some(b())], false);
    let kept: Vec<String> = with.iter().filter(|p| p.front_matter.status.is_none()).map(|p| p.front_matter.slug.clone()).collect();
    let got: Vec<String> = without.iter().map(|p| p.front_matter.slug.clone()).collect();
    assert_eq!(kept, got);
}

#[test]
fn ancestor_paths_grow_by_names() {
    let paths = get_ancestor_directories_paths("content/fr/tech/x.md");
    let names = get_ancestor_directories_names("content/fr/tech/x.md");
    assert_eq!(names, vec!["content".to_owned(), "fr".to_owned(), "tech".to_owned()]);
    assert_eq!(paths[0], names[0]);
    for i in 1..paths.len() {
        assert_eq!(paths[i], format!("{}/{}", paths[i - 1], names[i]));
    }
}

#[test]
fn anchors_count_earlier_headings() {
    let mut s = GitHubSlugifier::default();
    let texts = ["Intro", "Setup", "intro", "Intro!", "Setup"];
    let got: Vec<String> = texts.iter().map(|t| s.slugify(t.to_string())).collect();
    assert_eq!(got, vec!["intro", "setup", "intro-1", "intro-2", "setup-1"]);
}

#[test]
fn leap_second_sorts_after_its_second() {
    let p = |slug: &str, date: &str| post_at(&format!("content/fr/{}.md", slug), slug, date, None, None);
    let posts = vec![p("leap", "2016-12-31 23:59:60+00:00"), p("plain", "2016-12-31 23:59:59+00:00")];
    let bytes = write_sitemap_for_posts(&posts, "https://ex.org").unwrap();
    let xml = String::from_utf8(bytes).unwrap();
    assert!(xml.find("blog/fr/plain/").unwrap() < xml.find("blog/fr/leap/").unwrap());
}

#[test]
fn ancestors_are_written_as_in_the_path() {
    assert_eq!(
        get_ancestor_directories_paths("content//fr/x.md"),
        vec!["content".to_owned(), "content//fr".to_owned()]
    );
    assert_eq!(
        get_ancestor_directories_names("content//fr/x.md"),
        vec!["content".to_owned(), "fr".to_owned()]
    );
    assert_eq!(
        get_ancestor_directories_paths("a/./b/x.md"),
        vec!["a".to_owned(), "a/./b".to_owned()]
    );
    assert_eq!(get_ancestor_directories_paths("./x.md"), vec![".".to_owned()]);
}

#[test]
fn text_without_rewritten_blocks_renders_as_pulldown_alone() {
    let md = "A *list*:\n\n- one [link](https://example.com)\n- two `code`\n\n| a | b |\n|---|---|\n| 1 | 2 |\n\n~~gone~~ and a footnote[^n].\n\n[^n]: The note.\n";
    let options = pulldown_cmark::Options::ENABLE_STRIKETHROUGH
        | pulldown_cmark::Options::ENABLE_HEADING_ATTRIBUTES
        | pulldown_cmark::Options::ENABLE_GFM
        | pulldown_cmark::Options::ENABLE_FOOTNOTES
        | pulldown_cmark::Options::ENABLE_TASKLISTS;
    let mut plain = String::new();
    pulldown_cmark::html::push_html(&mut plain, pulldown_cmark::Parser::new_ext(md, options));
    let s = Settings::default();
    assert_eq!(emmett::markdown::convert_md_to_html(md, &s, None), plain);
    let options = pulldown_cmark::Options::ENABLE_STRIKETHROUGH
        | pulldown_cmark::Options::ENABLE_HEADING_ATTRIBUTES
        | pulldown_cmark::Options::ENABLE_GFM;
    let mut plain = String::new();
    pulldown_cmark::html::push_html(&mut plain, pulldown_cmark::Parser::new_ext(md, options));
    assert_eq!(convert_md_to_html(md, &s, None), plain);
}

#[test]
fn fresh_anchor_slugifies_to_itself() {
    let mut first = GitHubSlugifier::default();
    let anchor = first.slugify(String::from("Hello, World: Ünïcode Test!"));
    assert_eq!(anchor, "hello-world-ünïcode-test");
    let mut second = GitHubSlugifier::default();
    assert_eq!(second.slugify(anchor.clone()), anchor);
}
