//! The `pulldown_cmark` side of the conversion: a Markdown text parsed into
//! events, what the logic reads of each event, and the HTML written for a
//! stream of events.
use vstd::prelude::*;
use pulldown_cmark::{CodeBlockKind::Fenced, Event, Options, Parser, Tag, TagEnd};
use pulldown_cmark::Event::{Code, End, Html, Start, Text};
use pulldown_cmark::html::push_html;
use crate::markdown::{MdEvent, MdEventView, HtmlEvent, HtmlEventView, html_views, indices_below, headings_balanced};
use crate::markdown::MdEvent::{BlockQuoteStart, CodeBlockEnd, CodeBlockStart, HeadingEnd, HeadingStart, Other};
use crate::markdown::HtmlEvent::Heading;

verus! {

#[verifier::external_type_specification]
#[verifier::external_body]
pub struct ExEvent<'a>(Event<'a>);

/// The events that `pulldown_cmark::Parser::new_ext` yields for a Markdown
/// text, with strikethrough, heading attributes and GitHub-flavored Markdown
/// switched on, and footnotes and task lists too when `extended`, each read
/// as an `MdEvent`.
pub uninterp spec fn md_events(md: Seq<char>, extended: bool) -> Seq<MdEventView>;

/// The HTML that `pulldown_cmark::html::push_html` writes for the event
/// stream that `out` describes over the events parsed from `md` as in
/// `md_events`.
pub uninterp spec fn pulldown_html(md: Seq<char>, extended: bool, out: Seq<HtmlEventView>) -> Seq<char>;

/// A Markdown text with the events that `pulldown_cmark` parsed from it.
/// Its fields are private to this module and only the two parse functions
/// make one, so `events` always holds what `Parser::new_ext` yields for
/// `text` with the options that `extended` picks.
pub(crate) struct ParsedMarkdown {
    text: String,
    extended: bool,
    events: Vec<Event<'static>>,
}

impl View for ParsedMarkdown {
    type V = (Seq<char>, bool);

    closed spec fn view(&self) -> (Seq<char>, bool) {
        (self.text@, self.extended)
    }
}

impl ParsedMarkdown {
    /// `pulldown_cmark::Parser::new_ext` on a Markdown text, with
    /// strikethrough, heading attributes and GitHub-flavored Markdown. Its
    /// documentation promises that start and end events are balanced;
    /// headings are leaf blocks that hold no other heading, so every heading
    /// end closes the heading start before it.
    #[verifier::external_body]
    pub(crate) fn parse(md: &str) -> (r: ParsedMarkdown)
        ensures
            r@ == (md@, false),
            headings_balanced(md_events(r@.0, r@.1)),
    {
        let options = Options::ENABLE_STRIKETHROUGH | Options::ENABLE_HEADING_ATTRIBUTES | Options::ENABLE_GFM;
        let events = Parser::new_ext(md, options).map(|e| e.into_static()).collect();
        ParsedMarkdown { text: md.to_string(), extended: false, events }
    }

    /// `pulldown_cmark::Parser::new_ext` as in `parse`, with footnotes and
    /// task lists as well.
    #[verifier::external_body]
    pub(crate) fn parse_extended(md: &str) -> (r: ParsedMarkdown)
        ensures
            r@ == (md@, true),
            headings_balanced(md_events(r@.0, r@.1)),
    {
        let options = Options::ENABLE_STRIKETHROUGH | Options::ENABLE_HEADING_ATTRIBUTES | Options::ENABLE_GFM
            | Options::ENABLE_FOOTNOTES | Options::ENABLE_TASKLISTS;
        let events = Parser::new_ext(md, options).map(|e| e.into_static()).collect();
        ParsedMarkdown { text: md.to_string(), extended: true, events }
    }

    /// The number of parsed events (`Vec::len`).
    #[verifier::external_body]
    pub(crate) fn len(&self) -> (n: usize)
        ensures
            n == md_events(self@.0, self@.1).len(),
    {
        self.events.len()
    }

    /// The parsed event at position `i`, read as an `MdEvent`, one arm per
    /// kind of event.
    #[verifier::external_body]
    pub(crate) fn event(&self, i: usize) -> (r: MdEvent)
        requires
            i < md_events(self@.0, self@.1).len(),
        ensures
            r@ == md_events(self@.0, self@.1)[i as int],
    {
        match &self.events[i] {
            Text(t) => MdEvent::Text(t.to_string()),
            Code(t) => MdEvent::Code(t.to_string()),
            Html(t) => MdEvent::Html(t.to_string()),
            Start(Tag::Heading { id, .. }) => HeadingStart(id.as_deref().map(String::from)),
            End(TagEnd::Heading(_)) => HeadingEnd,
            Start(Tag::BlockQuote(k)) => BlockQuoteStart(k.map(|k| k as u8)),
            Start(Tag::CodeBlock(k)) => CodeBlockStart(if let Fenced(f) = k { f.to_string() } else { String::new() }),
            End(TagEnd::CodeBlock) => CodeBlockEnd,
            _ => Other,
        }
    }

    /// `pulldown_cmark::html::push_html` on the events that `out` describes:
    /// a parsed event by position, raw HTML, or a heading start with its id
    /// set.
    #[verifier::external_body]
    pub(crate) fn render(&self, out: &Vec<HtmlEvent>) -> (r: String)
        requires
            indices_below(html_views(out@), md_events(self@.0, self@.1).len() as int),
        ensures
            r@ == pulldown_html(self@.0, self@.1, html_views(out@)),
    {
        let events = out.iter().map(|o| match o {
            HtmlEvent::Source(i) => self.events[*i].clone(),
            HtmlEvent::Html(h) => Html(h.clone().into()),
            Heading(i, id) => {
                let mut e = self.events[*i].clone();
                if let Start(Tag::Heading { id: old, .. }) = &mut e { *old = Some(id.clone().into()); }
                e
            },
        });
        let mut html = String::new();
        push_html(&mut html, events);
        html
    }
}

} // verus!
