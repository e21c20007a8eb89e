//! The site's settings, read from the `configuration` file.
use vstd::prelude::*;

verus! {

/// Paths and site-wide values that drive the generation.
#[derive(Clone, Debug)]
pub struct Settings {
    pub blog_prefix_path: String,
    pub output_path: String,
    pub posts_path: String,
    pub pages_path: String,
    pub static_path: String,
    pub create_index_for: Vec<String>,
    pub base_url: String,
    pub author: String,
    pub website_title: String,
}

impl Default for Settings {
    fn default() -> (r: Self)
        ensures
            r.blog_prefix_path@.len() == 0,
            r.output_path@.len() == 0,
            r.posts_path@.len() == 0,
            r.pages_path@.len() == 0,
            r.static_path@.len() == 0,
            r.create_index_for@.len() == 0,
            r.base_url@.len() == 0,
            r.author@.len() == 0,
            r.website_title@.len() == 0,
    {
        Settings {
            blog_prefix_path: String::new(),
            output_path: String::new(),
            posts_path: String::new(),
            pages_path: String::new(),
            static_path: String::new(),
            create_index_for: Vec::new(),
            base_url: String::new(),
            author: String::new(),
            website_title: String::new(),
        }
    }
}

} // verus!
