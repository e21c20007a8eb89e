//! The `markdown` filter that templates apply to a text.
use vstd::prelude::*;
use crate::config::Settings;
use crate::content::{checked_convert_md_to_html, fits, md_html};

verus! {

/// `tera::Error`, the error of a template operation.
#[verifier::external_type_specification]
#[verifier::external_body]
pub struct ExTeraError(tera::Error);

/// Renders Markdown as HTML, with the site's settings.
#[derive(Debug)]
pub struct MarkdownFilter {
    settings: Settings,
}

impl MarkdownFilter {
    /// The settings the filter renders with.
    pub closed spec fn settings(&self) -> Settings {
        self.settings
    }

    /// A filter with these settings; making one never fails.
    pub fn new(settings: Settings) -> (r: Result<Self, tera::Error>)
        ensures
            r matches Ok(f) && f.settings() == settings,
    {
        Ok(Self { settings })
    }

    /// The HTML of a Markdown text; `None` for a text with `i32::MAX`
    /// headings or more.
    pub fn filter(&self, value: &str) -> (r: Option<String>)
        ensures
            match r {
                Some(h) => fits(value@) && h@ == md_html(value@),
                None => !fits(value@),
            },
    {
        checked_convert_md_to_html(value, &self.settings, None)
    }
}

} // verus!
