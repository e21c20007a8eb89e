//! A static site generator for a blog: posts written in Markdown with a YAML
//! front matter become HTML pages, tag and category indexes, a sitemap and an
//! Atom feed.
pub mod text;
pub mod slugify;
pub mod config;
pub mod markdown;
pub mod post;
pub mod content;
pub mod sort;
pub mod sitemap;
pub mod rss;
pub mod startup;
pub mod errors;
pub mod templates;
