//! Markdown to HTML: headings get anchors (ids), fenced code blocks get a
//! wrapper and escaped content, GitHub-style alerts get their title and icon.
//!
//! The Markdown is parsed by `pulldown_cmark`; what the logic reads of each
//! parsed event is an `MdEvent`. The logic turns the event stream into a
//! stream of `HtmlEvent`s, each either a parsed event passed on by its
//! position, a heading start with its id, or a piece of raw HTML, which
//! `pulldown_cmark` then writes out as HTML. The calls into `pulldown_cmark`
//! stand in the submodule `pulldown`.
use vstd::prelude::*;
pub mod pulldown;

use self::MdEvent::{BlockQuoteStart, CodeBlockEnd, CodeBlockStart, HeadingEnd, HeadingStart, Other};
use self::pulldown::{ParsedMarkdown, md_events, pulldown_html};
use crate::config::Settings;
use crate::slugify::{GitHubSlugifier, Slugify, next_anchor};
use crate::text::{chars_of, string_of, push_str, push_chars, push_escaped_html, escape_html, trim, trim_chars, split_on, split_chars, chars_eq};
use vstd::string::StringExecFns;

verus! {

// ---------------------------------------------------------------------------
// Events
/// What the HTML conversion reads of a parsed Markdown event.
pub enum MdEvent {
    /// A text node.
    Text(String),
    /// An inline code node.
    Code(String),
    /// An HTML node.
    Html(String),
    /// The start of a heading, with the id written in its attributes, if any.
    HeadingStart(Option<String>),
    /// The end of a heading.
    HeadingEnd,
    /// The start of a block quote, with the alert kind (0 note, 1 tip,
    /// 2 important, 3 warning, 4 caution) for a GitHub alert.
    BlockQuoteStart(Option<u8>),
    /// The start of a code block, with its fence info (empty when indented).
    CodeBlockStart(String),
    /// The end of a code block.
    CodeBlockEnd,
    /// Any other event.
    Other,
}

pub enum MdEventView {
    Text(Seq<char>),
    Code(Seq<char>),
    Html(Seq<char>),
    HeadingStart(Option<Seq<char>>),
    HeadingEnd,
    BlockQuoteStart(Option<u8>),
    CodeBlockStart(Seq<char>),
    CodeBlockEnd,
    Other,
}

impl View for MdEvent {
    type V = MdEventView;

    open spec fn view(&self) -> MdEventView {
        match self {
            MdEvent::Text(t) => MdEventView::Text(t@),
            MdEvent::Code(t) => MdEventView::Code(t@),
            MdEvent::Html(t) => MdEventView::Html(t@),
            MdEvent::HeadingStart(id) => MdEventView::HeadingStart(
                match id {
                    Some(i) => Some(i@),
                    None => None,
                },
            ),
            MdEvent::HeadingEnd => MdEventView::HeadingEnd,
            MdEvent::BlockQuoteStart(k) => MdEventView::BlockQuoteStart(*k),
            MdEvent::CodeBlockStart(f) => MdEventView::CodeBlockStart(f@),
            MdEvent::CodeBlockEnd => MdEventView::CodeBlockEnd,
            MdEvent::Other => MdEventView::Other,
        }
    }
}

/// An event of the HTML to write.
pub enum HtmlEvent {
    /// The parsed event at this position, unchanged.
    Source(usize),
    /// Raw HTML.
    Html(String),
    /// The heading start at this position, with this id.
    Heading(usize, String),
}

pub enum HtmlEventView {
    Source(int),
    Html(Seq<char>),
    Heading(int, Seq<char>),
}

impl View for HtmlEvent {
    type V = HtmlEventView;

    open spec fn view(&self) -> HtmlEventView {
        match self {
            HtmlEvent::Source(i) => HtmlEventView::Source(*i as int),
            HtmlEvent::Html(s) => HtmlEventView::Html(s@),
            HtmlEvent::Heading(i, id) => HtmlEventView::Heading(*i as int, id@),
        }
    }
}

pub open spec fn html_views(out: Seq<HtmlEvent>) -> Seq<HtmlEventView> {
    out.map_values(|o: HtmlEvent| o@)
}

pub open spec fn md_views(evs: Seq<MdEvent>) -> Seq<MdEventView> {
    evs.map_values(|e: MdEvent| e@)
}

// ---------------------------------------------------------------------------
// Code blocks
/// A fence-info token that sets an option rather than a language.
pub open spec fn fence_keyword(t: Seq<char>) -> bool {
    t == "linenos"@ || t == "linenostart"@ || t == "hl_lines"@ || t == "hide_lines"@
        || t == "name"@
}

/// A fence-info token that names the language.
pub open spec fn is_language_token(t: Seq<char>) -> bool {
    t.len() > 0 && !t.contains('=') && !fence_keyword(t)
}

/// The last language token among the (trimmed) tokens.
pub open spec fn last_language(tokens: Seq<Seq<char>>) -> Option<Seq<char>>
    decreases tokens.len(),
{
    if tokens.len() == 0 {
        None
    } else if is_language_token(trim(tokens.last())) {
        Some(trim(tokens.last()))
    } else {
        last_language(tokens.drop_last())
    }
}

/// The language of a code block: the last comma-separated token of the
/// fence info that is neither empty, nor an option, nor `key=value`.
pub open spec fn fence_language(info: Seq<char>) -> Option<Seq<char>> {
    last_language(split_on(info, ','))
}

/// The settings given on a code fence.
pub struct FenceSettings {
    pub language: Option<String>,
}

impl FenceSettings {
    pub open spec fn language_view(&self) -> Option<Seq<char>> {
        match self.language {
            Some(l) => Some(l@),
            None => None,
        }
    }

    /// Reads the fence info of a code block (such as `rust,linenos`).
    pub fn new(fence_info: &str) -> (r: FenceSettings)
        ensures
            r.language_view() == fence_language(fence_info@),
    {
        let info = chars_of(fence_info);
        let tokens = split_chars(&info, ',');
        let ghost toks = split_on(info@, ',');
        let kw_linenos = chars_of("linenos");
        let kw_linenostart = chars_of("linenostart");
        let kw_hl_lines = chars_of("hl_lines");
        let kw_hide_lines = chars_of("hide_lines");
        let kw_name = chars_of("name");
        let mut k: usize = tokens.len();
        assert(toks.take(toks.len() as int) =~= toks);
        while k > 0
            invariant
                k <= tokens@.len(),
                toks == split_on(fence_info@, ','),
                tokens@.len() == toks.len(),
                forall|i: int| 0 <= i < tokens@.len() ==> (#[trigger] tokens@[i])@ == toks[i],
                last_language(toks) == last_language(toks.take(k as int)),
                kw_linenos@ == "linenos"@,
                kw_linenostart@ == "linenostart"@,
                kw_hl_lines@ == "hl_lines"@,
                kw_hide_lines@ == "hide_lines"@,
                kw_name@ == "name"@,
            decreases k,
        {
            let t = trim_chars(&tokens[k - 1]);
            let ghost prefix = toks.take(k as int);
            assert(prefix.last() == toks[k - 1]);
            assert(prefix.drop_last() =~= toks.take(k - 1));
            let mut has_eq = false;
            let mut j: usize = 0;
            while j < t.len()
                invariant
                    j <= t@.len(),
                    has_eq == (exists|w: int| 0 <= w < j && #[trigger] t@[w] == '='),
                decreases t@.len() - j,
            {
                if t[j] == '=' {
                    has_eq = true;
                }
                j = j + 1;
            }
            let keyword = chars_eq(&t, &kw_linenos) || chars_eq(&t, &kw_linenostart) || chars_eq(
                &t,
                &kw_hl_lines,
            ) || chars_eq(&t, &kw_hide_lines) || chars_eq(&t, &kw_name);
            assert(t@ == trim(toks[k - 1]));
            assert(has_eq == t@.contains('='));
            if t.len() > 0 && !has_eq && !keyword {
                assert(is_language_token(t@));
                assert(prefix.last() == toks[k - 1]);
                assert(is_language_token(trim(prefix.last())));
                assert(last_language(prefix) == Some(t@));
                let lang = string_of(&t);
                assert(lang@ == t@);
                assert(toks == split_on(fence_info@, ','));
                let r = FenceSettings { language: Some(lang) };
                assert(r.language_view() == Some(t@));
                return r;
            }
            k = k - 1;
        }
        FenceSettings { language: None }
    }
}

/// The HTML that opens a code block: a `pre` and a `code` element, with the
/// class `language-…` when the fence names a language.
pub open spec fn code_block_begin(language: Option<Seq<char>>) -> Seq<char> {
    match language {
        Some(l) => "<pre><code class=\"language-"@ + escape_html(l) + "\">"@,
        None => "<pre><code>"@,
    }
}

/// A code block being written out.
pub struct CodeBlock {
    pub language: Option<String>,
}

impl CodeBlock {
    /// Starts a code block; gives the block and the HTML that opens it.
    pub fn new(fence: &FenceSettings, settings: &Settings, path: Option<&str>) -> (r: (
        CodeBlock,
        String,
    ))
        ensures
            r.1@ == code_block_begin(fence.language_view()),
            r.0.language == fence.language,
    {
        let mut out: Vec<char> = Vec::new();
        match &fence.language {
            Some(l) => {
                push_str(&mut out, "<pre><code class=\"language-");
                let lc = chars_of(l.as_str());
                push_escaped_html(&mut out, &lc);
                push_str(&mut out, "\">");
            },
            None => {
                push_str(&mut out, "<pre><code>");
            },
        }
        let lang = match &fence.language {
            Some(l) => Some(l.clone()),
            None => None,
        };
        (CodeBlock { language: lang }, string_of(&out))
    }

    /// The HTML for a text inside the block: the text, escaped.
    pub fn highlight(&self, content: &str) -> (r: String)
        ensures
            r@ == escape_html(content@),
    {
        let mut out: Vec<char> = Vec::new();
        let cs = chars_of(content);
        push_escaped_html(&mut out, &cs);
        string_of(&out)
    }
}

// ---------------------------------------------------------------------------
// Fixed pieces of HTML
pub open spec fn heading_open_html() -> Seq<char> {
    "<div class=\"markdown-heading\">\n"@
}

pub open spec fn div_close_html() -> Seq<char> {
    "</div>\n"@
}

pub open spec fn anchor_link_prefix() -> Seq<char> {
    "<a href=\"#"@
}

pub open spec fn anchor_link_suffix() -> Seq<char> {
    "\" class=\"anchor\"><svg class=\"octicon octicon-link\" viewBox=\"0 0 16 16\" version=\"1.1\" width=\"16\" height=\"16\" aria-hidden=\"true\"><path d=\"m7.775 3.275 1.25-1.25a3.5 3.5 0 1 1 4.95 4.95l-2.5 2.5a3.5 3.5 0 0 1-4.95 0 .751.751 0 0 1 .018-1.042.751.751 0 0 1 1.042-.018 1.998 1.998 0 0 0 2.83 0l2.5-2.5a2.002 2.002 0 0 0-2.83-2.83l-1.25 1.25a.751.751 0 0 1-1.042-.018.751.751 0 0 1-.018-1.042Zm-4.69 9.64a1.998 1.998 0 0 0 2.83 0l1.25-1.25a.751.751 0 0 1 1.042.018.751.751 0 0 1 .018 1.042l-1.25 1.25a3.5 3.5 0 1 1-4.95-4.95l2.5-2.5a3.5 3.5 0 0 1 4.95 0 .751.751 0 0 1-.018 1.042.751.751 0 0 1-1.042.018 1.998 1.998 0 0 0-2.83 0l-2.5 2.5a1.998 1.998 0 0 0 0 2.83Z\"></path></svg></a>\n"@
}

/// The link to a heading's anchor, shown beside the heading.
pub open spec fn anchor_link_html(slug: Seq<char>) -> Seq<char> {
    anchor_link_prefix() + slug + anchor_link_suffix()
}

/// The class attribute of an alert block quote.
pub open spec fn alert_class(kind: Option<u8>) -> Seq<char> {
    match kind {
        None => ""@,
        Some(k) => if k == 0 {
            " class=\"markdown-alert markdown-alert-note\""@
        } else if k == 1 {
            " class=\"markdown-alert markdown-alert-tip\""@
        } else if k == 2 {
            " class=\"markdown-alert markdown-alert-important\""@
        } else if k == 3 {
            " class=\"markdown-alert markdown-alert-warning\""@
        } else {
            " class=\"markdown-alert markdown-alert-caution\""@
        },
    }
}

/// The title paragraph (with its icon) of an alert block quote.
pub open spec fn alert_title(kind: Option<u8>) -> Seq<char> {
    match kind {
        None => ""@,
        Some(k) => if k == 0 {
            "<p class=\"markdown-alert-title\">\n<svg viewBox=\"0 0 16 16\" version=\"1.1\" width=\"16\" height=\"16\" aria-hidden=\"true\"><path d=\"M0 8a8 8 0 1 1 16 0A8 8 0 0 1 0 8Zm8-6.5a6.5 6.5 0 1 0 0 13 6.5 6.5 0 0 0 0-13ZM6.5 7.75A.75.75 0 0 1 7.25 7h1a.75.75 0 0 1 .75.75v2.75h.25a.75.75 0 0 1 0 1.5h-2a.75.75 0 0 1 0-1.5h.25v-2h-.25a.75.75 0 0 1-.75-.75ZM8 6a1 1 0 1 1 0-2 1 1 0 0 1 0 2Z\"></path></svg>\nNote</p>\n"@
        } else if k == 1 {
            "<p class=\"markdown-alert-title\">\n<svg viewBox=\"0 0 16 16\" version=\"1.1\" width=\"16\" height=\"16\" aria-hidden=\"true\"><path d=\"M8 1.5c-2.363 0-4 1.69-4 3.75 0 .984.424 1.625.984 2.304l.214.253c.223.264.47.556.673.848.284.411.537.896.621 1.49a.75.75 0 0 1-1.484.211c-.04-.282-.163-.547-.37-.847a8.456 8.456 0 0 0-.542-.68c-.084-.1-.173-.205-.268-.32C3.201 7.75 2.5 6.766 2.5 5.25 2.5 2.31 4.863 0 8 0s5.5 2.31 5.5 5.25c0 1.516-.701 2.5-1.328 3.259-.095.115-.184.22-.268.319-.207.245-.383.453-.541.681-.208.3-.33.565-.37.847a.751.751 0 0 1-1.485-.212c.084-.593.337-1.078.621-1.489.203-.292.45-.584.673-.848.075-.088.147-.173.213-.253.561-.679.985-1.32.985-2.304 0-2.06-1.637-3.75-4-3.75ZM5.75 12h4.5a.75.75 0 0 1 0 1.5h-4.5a.75.75 0 0 1 0-1.5ZM6 15.25a.75.75 0 0 1 .75-.75h2.5a.75.75 0 0 1 0 1.5h-2.5a.75.75 0 0 1-.75-.75Z\"></path></svg>\nTip</p>\n"@
        } else if k == 2 {
            "<p class=\"markdown-alert-title\">\n<svg viewBox=\"0 0 16 16\" version=\"1.1\" width=\"16\" height=\"16\" aria-hidden=\"true\"><path d=\"M0 1.75C0 .784.784 0 1.75 0h12.5C15.216 0 16 .784 16 1.75v9.5A1.75 1.75 0 0 1 14.25 13H8.06l-2.573 2.573A1.458 1.458 0 0 1 3 14.543V13H1.75A1.75 1.75 0 0 1 0 11.25Zm1.75-.25a.25.25 0 0 0-.25.25v9.5c0 .138.112.25.25.25h2a.75.75 0 0 1 .75.75v2.19l2.72-2.72a.749.749 0 0 1 .53-.22h6.5a.25.25 0 0 0 .25-.25v-9.5a.25.25 0 0 0-.25-.25Zm7 2.25v2.5a.75.75 0 0 1-1.5 0v-2.5a.75.75 0 0 1 1.5 0ZM9 9a1 1 0 1 1-2 0 1 1 0 0 1 2 0Z\"></path></svg>\nImportant</p>\n"@
        } else if k == 3 {
            "<p class=\"markdown-alert-title\">\n<svg class=\"octicon octicon-alert mr-2\" viewBox=\"0 0 16 16\" version=\"1.1\" width=\"16\" height=\"16\" aria-hidden=\"true\"><path d=\"M6.457 1.047c.659-1.234 2.427-1.234 3.086 0l6.082 11.378A1.75 1.75 0 0 1 14.082 15H1.918a1.75 1.75 0 0 1-1.543-2.575Zm1.763.707a.25.25 0 0 0-.44 0L1.698 13.132a.25.25 0 0 0 .22.368h12.164a.25.25 0 0 0 .22-.368Zm.53 3.996v2.5a.75.75 0 0 1-1.5 0v-2.5a.75.75 0 0 1 1.5 0ZM9 11a1 1 0 1 1-2 0 1 1 0 0 1 2 0Z\"></path></svg>\nWarning</p>\n"@
        } else {
            "<p class=\"markdown-alert-title\">\n<svg viewBox=\"0 0 16 16\" version=\"1.1\" width=\"16\" height=\"16\" aria-hidden=\"true\"><path d=\"M4.47.22A.749.749 0 0 1 5 0h6c.199 0 .389.079.53.22l4.25 4.25c.141.14.22.331.22.53v6a.749.749 0 0 1-.22.53l-4.25 4.25A.749.749 0 0 1 11 16H5a.749.749 0 0 1-.53-.22L.22 11.53A.749.749 0 0 1 0 11V5c0-.199.079-.389.22-.53Zm.84 1.28L1.5 5.31v5.38l3.81 3.81h5.38l3.81-3.81V5.31L10.69 1.5ZM8 4a.75.75 0 0 1 .75.75v3.5a.75.75 0 0 1-1.5 0v-3.5A.75.75 0 0 1 8 4Zm0 8a1 1 0 1 1 0-2 1 1 0 0 1 0 2Z\"></path></svg>\nCaution</p>\n"@
        },
    }
}

/// The opening of a block quote, with the alert class and title if any.
pub open spec fn blockquote_open_html(kind: Option<u8>) -> Seq<char> {
    "<blockquote"@ + alert_class(kind) + ">\n"@ + alert_title(kind)
}

pub open spec fn copy_button_html() -> Seq<char> {
    "<button class=\"copy-to-clipboard\" title=\"Copy to clipboard\"><svg class=\"h-6 w-6 fill-white\" xmlns=\"http://www.w3.org/2000/svg\" x=\"0px\" y=\"0px\" viewBox=\"0 0 24 24\"><path d=\"M 4 2 C 2.895 2 2 2.895 2 4 L 2 17 C 2 17.552 2.448 18 3 18 C 3.552 18 4 17.552 4 17 L 4 4 L 17 4 C 17.552 4 18 3.552 18 3 C 18 2.448 17.552 2 17 2 L 4 2 z M 8 6 C 6.895 6 6 6.895 6 8 L 6 20 C 6 21.105 6.895 22 8 22 L 20 22 C 21.105 22 22 21.105 22 20 L 22 8 C 22 6.895 21.105 6 20 6 L 8 6 z M 8 8 L 20 8 L 20 20 L 8 20 L 8 8 z\"></path></svg></button>\n"@
}

/// The name shown above a code block: its language, or `code`.
pub open spec fn language_label(language: Option<Seq<char>>) -> Seq<char> {
    match language {
        Some(l) => l,
        None => "code"@,
    }
}

/// The HTML events that open a code block.
pub open spec fn code_block_open(decorated: bool, info: Seq<char>) -> Seq<HtmlEventView> {
    let lang = fence_language(info);
    if decorated {
        seq![
            HtmlEventView::Html("<div class=\"code-block\">"@),
            HtmlEventView::Html("<div class=\"language-name\">"@ + language_label(lang) + "</div>"@),
            HtmlEventView::Html(copy_button_html()),
            HtmlEventView::Html(code_block_begin(lang)),
        ]
    } else {
        seq![HtmlEventView::Html(code_block_begin(lang))]
    }
}

/// The HTML that closes a code block.
pub open spec fn code_block_close(decorated: bool) -> Seq<char> {
    if decorated {
        "</code></pre></div>\n"@
    } else {
        "</code></pre>\n"@
    }
}

// ---------------------------------------------------------------------------
// The conversion, step by step
/// A heading whose end has not been seen yet.
pub struct OpenHeading {
    /// Position of its start event.
    pub source: int,
    /// The id written in its attributes.
    pub id: Option<Seq<char>>,
    /// Positions of the events between its start and its end.
    pub inner: Seq<int>,
}

pub struct MdState {
    pub out: Seq<HtmlEventView>,
    pub in_code: bool,
    pub heading: Option<OpenHeading>,
    pub seen: Map<Seq<char>, int>,
}

/// The text an event contributes to a heading's text.
pub open spec fn event_text(e: MdEventView) -> Seq<char> {
    match e {
        MdEventView::Text(t) => t,
        MdEventView::Code(t) => t,
        _ => Seq::<char>::empty(),
    }
}

/// The text of a heading: its text and inline code, with the Markdown
/// markup left out.
pub open spec fn heading_text(evs: Seq<MdEventView>, inner: Seq<int>) -> Seq<char>
    decreases inner.len(),
{
    if inner.len() == 0 {
        Seq::<char>::empty()
    } else {
        heading_text(evs, inner.drop_last()) + event_text(evs[inner.last()])
    }
}

/// Passes the event at `i` on, into the open heading if there is one.
pub open spec fn pass_on(st: MdState, i: int) -> MdState {
    match st.heading {
        Some(h) => MdState {
            heading: Some(OpenHeading { inner: h.inner.push(i), ..h }),
            ..st
        },
        None => MdState { out: st.out.push(HtmlEventView::Source(i)), ..st },
    }
}

/// What a heading becomes once its end (at `end`) is seen.
pub open spec fn heading_block(decorated: bool, h: OpenHeading, id: Seq<char>, slug: Seq<char>, end: int) -> Seq<HtmlEventView> {
    let body = seq![HtmlEventView::Heading(h.source, id)] + h.inner.map_values(
        |j: int| HtmlEventView::Source(j),
    ) + seq![HtmlEventView::Source(end)];
    if decorated {
        seq![HtmlEventView::Html(heading_open_html())] + body + seq![
            HtmlEventView::Html(anchor_link_html(slug)),
            HtmlEventView::Html(div_close_html()),
        ]
    } else {
        body
    }
}

/// One step of the conversion, on the event at position `i`.
pub open spec fn md_step(decorated: bool, evs: Seq<MdEventView>, st: MdState, i: int) -> MdState {
    match evs[i] {
        MdEventView::Text(t) => {
            if st.heading is Some {
                pass_on(st, i)
            } else if st.in_code {
                MdState { out: st.out.push(HtmlEventView::Html(escape_html(t))), ..st }
            } else {
                MdState { out: st.out.push(HtmlEventView::Source(i)), ..st }
            }
        },
        MdEventView::HeadingStart(id) => MdState {
            heading: Some(OpenHeading { source: i, id: id, inner: Seq::empty() }),
            ..st
        },
        MdEventView::HeadingEnd => match st.heading {
            Some(h) => {
                let (slug, seen) = next_anchor(st.seen, heading_text(evs, h.inner));
                let id = match h.id {
                    Some(x) => x,
                    None => slug,
                };
                MdState {
                    out: st.out + heading_block(decorated, h, id, slug, i),
                    in_code: st.in_code,
                    heading: None,
                    seen: seen,
                }
            },
            None => st,
        },
        MdEventView::BlockQuoteStart(k) => {
            if decorated {
                MdState { out: st.out.push(HtmlEventView::Html(blockquote_open_html(k))), ..st }
            } else {
                pass_on(st, i)
            }
        },
        MdEventView::CodeBlockStart(info) => MdState {
            out: st.out + code_block_open(decorated, info),
            in_code: true,
            ..st
        },
        MdEventView::CodeBlockEnd => MdState {
            out: st.out.push(HtmlEventView::Html(code_block_close(decorated))),
            in_code: false,
            ..st
        },
        _ => pass_on(st, i),
    }
}

pub open spec fn md_initial() -> MdState {
    MdState { out: Seq::empty(), in_code: false, heading: None, seen: Map::empty() }
}

/// The state after the first `n` events.
pub open spec fn md_run(decorated: bool, evs: Seq<MdEventView>, n: nat) -> MdState
    decreases n,
{
    if n == 0 {
        md_initial()
    } else {
        md_step(decorated, evs, md_run(decorated, evs, (n - 1) as nat), n - 1)
    }
}

/// Whether an HTML event is kept: empty text and empty HTML are dropped.
pub open spec fn keeps(evs: Seq<MdEventView>, o: HtmlEventView) -> bool {
    match o {
        HtmlEventView::Html(s) => s.len() > 0,
        HtmlEventView::Source(j) => match evs[j] {
            MdEventView::Text(t) => t.len() > 0,
            MdEventView::Html(t) => t.len() > 0,
            _ => true,
        },
        HtmlEventView::Heading(_, _) => true,
    }
}

pub open spec fn kept_events(evs: Seq<MdEventView>, outs: Seq<HtmlEventView>) -> Seq<HtmlEventView>
    decreases outs.len(),
{
    if outs.len() == 0 {
        Seq::empty()
    } else if keeps(evs, outs.last()) {
        kept_events(evs, outs.drop_last()).push(outs.last())
    } else {
        kept_events(evs, outs.drop_last())
    }
}

/// The HTML events that the conversion writes for parsed events `evs`.
pub open spec fn transform(decorated: bool, evs: Seq<MdEventView>) -> Seq<HtmlEventView> {
    kept_events(evs, md_run(decorated, evs, evs.len()).out)
}

proof fn lemma_kept_events_keep(evs: Seq<MdEventView>, outs: Seq<HtmlEventView>)
    ensures
        forall|k: int| 0 <= k < kept_events(evs, outs).len() ==> keeps(evs, #[trigger] kept_events(evs, outs)[k]),
    decreases outs.len(),
{
    if outs.len() > 0 {
        lemma_kept_events_keep(evs, outs.drop_last());
        let prev = kept_events(evs, outs.drop_last());
        let cur = kept_events(evs, outs);
        assert forall|k: int| 0 <= k < cur.len() implies keeps(evs, #[trigger] cur[k]) by {
            if k < prev.len() {
                assert(cur[k] == prev[k]);
            }
        }
    }
}

proof fn lemma_heading_text_alt(evs: Seq<MdEventView>, inner: Seq<int>, parts: Seq<Seq<char>>)
    requires
        inner.len() == parts.len(),
        forall|k: int| 0 <= k < inner.len() ==> match #[trigger] evs[inner[k]] {
            MdEventView::Text(t) => parts[k] == t,
            MdEventView::Code(t) => parts[k] == t,
            _ => parts[k].len() == 0,
        },
    ensures
        heading_text(evs, inner) == parts.flatten_alt(),
    decreases inner.len(),
{
    if inner.len() > 0 {
        let k = inner.len() - 1;
        assert forall|j: int| 0 <= j < inner.drop_last().len() implies match #[trigger] evs[inner.drop_last()[j]] {
            MdEventView::Text(t) => parts.drop_last()[j] == t,
            MdEventView::Code(t) => parts.drop_last()[j] == t,
            _ => parts.drop_last()[j].len() == 0,
        } by {
            assert(inner.drop_last()[j] == inner[j]);
            assert(evs[inner[j]] == evs[inner.drop_last()[j]]);
        }
        lemma_heading_text_alt(evs, inner.drop_last(), parts.drop_last());
        match evs[inner[k]] {
            MdEventView::Text(t) => {},
            MdEventView::Code(t) => {},
            _ => {
                assert(parts.last() =~= Seq::<char>::empty());
            },
        }
        assert(heading_text(evs, inner) == heading_text(evs, inner.drop_last()) + event_text(evs[inner.last()]));
        assert(parts.flatten_alt() == parts.drop_last().flatten_alt() + parts.last());
        assert(event_text(evs[inner.last()]) =~= parts.last());
    }
}

/// The text a heading's anchor is computed from is the concatenation, in
/// order, of the strings of its text and inline code events; its other
/// events (emphasis, links and the like) add nothing.
pub proof fn law_heading_text_is_text_and_code(evs: Seq<MdEventView>, inner: Seq<int>, parts: Seq<Seq<char>>)
    requires
        inner.len() == parts.len(),
        forall|k: int| 0 <= k < inner.len() ==> match #[trigger] evs[inner[k]] {
            MdEventView::Text(t) => parts[k] == t,
            MdEventView::Code(t) => parts[k] == t,
            _ => parts[k].len() == 0,
        },
    ensures
        heading_text(evs, inner) == parts.flatten(),
{
    lemma_heading_text_alt(evs, inner, parts);
    parts.lemma_flatten_and_flatten_alt_are_equivalent();
}

/// The events of a heading with no id written in its attributes, made of
/// text and inline code: `parts[k]` is inline code where `is_code[k]`.
pub open spec fn text_heading(parts: Seq<Seq<char>>, is_code: Seq<bool>) -> Seq<MdEventView> {
    seq![MdEventView::HeadingStart(None)] + Seq::new(
        parts.len(),
        |k: int| if is_code[k] { MdEventView::Code(parts[k]) } else { MdEventView::Text(parts[k]) },
    ) + seq![MdEventView::HeadingEnd]
}

proof fn lemma_text_heading_run(decorated: bool, parts: Seq<Seq<char>>, is_code: Seq<bool>, n: nat)
    requires
        parts.len() == is_code.len(),
        n <= parts.len(),
    ensures
        md_run(decorated, text_heading(parts, is_code), n + 1) == (MdState {
            out: Seq::empty(),
            in_code: false,
            heading: Some(OpenHeading { source: 0, id: None, inner: Seq::new(n, |k: int| k + 1) }),
            seen: Map::empty(),
        }),
    decreases n,
{
    let evs = text_heading(parts, is_code);
    if n == 0 {
        assert(evs[0] == MdEventView::HeadingStart(None));
        assert(md_run(decorated, evs, 0) == md_initial());
        assert(Seq::new(0, |k: int| k + 1) =~= Seq::<int>::empty());
    } else {
        lemma_text_heading_run(decorated, parts, is_code, (n - 1) as nat);
        let prev = md_run(decorated, evs, n);
        assert(evs[n as int] == if is_code[n - 1] { MdEventView::Code(parts[n - 1]) } else { MdEventView::Text(parts[n - 1]) });
        assert(md_run(decorated, evs, n + 1) == md_step(decorated, evs, prev, n as int));
        assert(md_step(decorated, evs, prev, n as int) == pass_on(prev, n as int));
        assert(Seq::new((n - 1) as nat, |k: int| k + 1).push(n as int) =~= Seq::new(n, |k: int| k + 1));
    }
}

proof fn lemma_kept_heading(evs: Seq<MdEventView>, outs: Seq<HtmlEventView>, x: HtmlEventView)
    requires
        outs.contains(x),
        x is Heading,
    ensures
        kept_events(evs, outs).contains(x),
    decreases outs.len(),
{
    if outs.last() == x {
        assert(kept_events(evs, outs).last() == x);
    } else {
        let j = choose|j: int| 0 <= j < outs.len() && outs[j] == x;
        assert(outs.drop_last()[j] == x);
        lemma_kept_heading(evs, outs.drop_last(), x);
        let prev = kept_events(evs, outs.drop_last());
        let i = choose|i: int| 0 <= i < prev.len() && prev[i] == x;
        if keeps(evs, outs.last()) {
            assert(kept_events(evs, outs)[i] == x);
        }
    }
}

/// A heading made of text and inline code, with no id in its attributes, is
/// written with the anchor of the concatenation of all its text and code as
/// its id; e.g. "The ", `main`, " function" give `the-main-function`.
pub proof fn law_heading_id_from_text_and_code(decorated: bool, parts: Seq<Seq<char>>, is_code: Seq<bool>)
    requires
        parts.len() == is_code.len(),
    ensures
        transform(decorated, text_heading(parts, is_code)).contains(
            HtmlEventView::Heading(0, crate::slugify::anchor_of(parts.flatten())),
        ),
{
    let evs = text_heading(parts, is_code);
    let n = parts.len();
    let inner = Seq::new(n, |k: int| k + 1);
    lemma_text_heading_run(decorated, parts, is_code, n);
    assert forall|k: int| 0 <= k < inner.len() implies match #[trigger] evs[inner[k]] {
        MdEventView::Text(t) => parts[k] == t,
        MdEventView::Code(t) => parts[k] == t,
        _ => parts[k].len() == 0,
    } by {
        assert(evs[k + 1] == if is_code[k] { MdEventView::Code(parts[k]) } else { MdEventView::Text(parts[k]) });
    }
    law_heading_text_is_text_and_code(evs, inner, parts);
    let a = crate::slugify::anchor_of(parts.flatten());
    assert(evs.len() == n + 2);
    assert(evs[n + 1int] == MdEventView::HeadingEnd);
    let h = OpenHeading { source: 0, id: None, inner: inner };
    crate::slugify::law_first_anchor_is_plain(parts.flatten());
    let out = md_run(decorated, evs, evs.len()).out;
    assert(out == heading_block(decorated, h, a, a, n + 1int));
    let x = HtmlEventView::Heading(0, a);
    if decorated {
        assert(out[1] == x);
    } else {
        assert(out[0] == x);
    }
    assert(out.contains(x));
    lemma_kept_heading(evs, out, x);
}

/// The conversion writes no empty text and no empty HTML.
pub proof fn law_no_empty_output(decorated: bool, evs: Seq<MdEventView>)
    ensures
        forall|k: int| 0 <= k < transform(decorated, evs).len() ==> keeps(evs, #[trigger] transform(decorated, evs)[k]),
{
    lemma_kept_events_keep(evs, md_run(decorated, evs, evs.len()).out);
}

/// Whether an event is one that the conversion rewrites: a heading's start or
/// end, or a code block's; and, when `decorated`, a block quote's start.
pub open spec fn rewritten(decorated: bool, e: MdEventView) -> bool {
    e is HeadingStart || e is HeadingEnd || e is CodeBlockStart || e is CodeBlockEnd
        || (decorated && e is BlockQuoteStart)
}

proof fn lemma_passthrough_run(decorated: bool, evs: Seq<MdEventView>, n: nat)
    requires
        n <= evs.len(),
        forall|i: int| 0 <= i < evs.len() ==> !rewritten(decorated, #[trigger] evs[i]),
    ensures
        md_run(decorated, evs, n).out == Seq::new(n, |i: int| HtmlEventView::Source(i)),
        !md_run(decorated, evs, n).in_code,
        md_run(decorated, evs, n).heading is None,
    decreases n,
{
    if n > 0 {
        lemma_passthrough_run(decorated, evs, (n - 1) as nat);
        assert(!rewritten(decorated, evs[n - 1]));
        assert(md_run(decorated, evs, n).out =~= Seq::new(n, |i: int| HtmlEventView::Source(i)));
    }
}

/// Without headings and code blocks (and, for the decorated conversion,
/// without block quotes), the conversion passes every parsed event on, in
/// order, but for empty text and empty HTML: the text is written as
/// `pulldown_cmark` writes it.
pub proof fn law_passthrough(decorated: bool, evs: Seq<MdEventView>)
    requires
        forall|i: int| 0 <= i < evs.len() ==> !rewritten(decorated, #[trigger] evs[i]),
    ensures
        transform(decorated, evs) == kept_events(evs, Seq::new(evs.len(), |i: int| HtmlEventView::Source(i))),
{
    lemma_passthrough_run(decorated, evs, evs.len());
}

proof fn lemma_all_kept(evs: Seq<MdEventView>, n: nat)
    requires
        n <= evs.len(),
        forall|i: int| 0 <= i < evs.len() ==> #[trigger] keeps(evs, HtmlEventView::Source(i)),
    ensures
        kept_events(evs, Seq::new(n, |i: int| HtmlEventView::Source(i))) == Seq::new(n, |i: int| HtmlEventView::Source(i)),
    decreases n,
{
    if n > 0 {
        let all = Seq::new(n, |i: int| HtmlEventView::Source(i));
        let prev = Seq::new((n - 1) as nat, |i: int| HtmlEventView::Source(i));
        lemma_all_kept(evs, (n - 1) as nat);
        assert(all.drop_last() =~= prev);
        assert(keeps(evs, HtmlEventView::Source(n - 1)));
        assert(prev.push(all.last()) =~= all);
    }
}

/// The HTML that `pulldown_cmark::html::push_html` writes for all the events
/// parsed from a Markdown text, in order: the text as `pulldown_cmark` alone
/// renders it.
pub open spec fn plain_html(md: Seq<char>, extended: bool) -> Seq<char> {
    pulldown_html(md, extended, Seq::new(md_events(md, extended).len(), |i: int| HtmlEventView::Source(i)))
}

/// A Markdown text with no heading and no code block (and, for the decorated
/// conversion, no block quote), and with no empty text or HTML node, is
/// converted to the HTML that `pulldown_cmark` alone writes for it.
pub proof fn law_plain_rendering(decorated: bool, md: Seq<char>)
    requires
        forall|i: int| 0 <= i < md_events(md, decorated).len()
            ==> !rewritten(decorated, #[trigger] md_events(md, decorated)[i]),
        forall|i: int| 0 <= i < md_events(md, decorated).len()
            ==> #[trigger] keeps(md_events(md, decorated), HtmlEventView::Source(i)),
    ensures
        pulldown_html(md, decorated, transform(decorated, md_events(md, decorated))) == plain_html(md, decorated),
{
    let evs = md_events(md, decorated);
    law_passthrough(decorated, evs);
    lemma_all_kept(evs, evs.len());
}

/// The HTML of a Markdown text depends on the text alone: the anchor
/// counters start afresh in every conversion, so two conversions of equal
/// texts give equal HTML, whatever was converted before.
pub proof fn law_conversion_depends_on_text_alone(decorated: bool, a: Seq<char>, b: Seq<char>)
    requires
        a == b,
    ensures
        md_run(decorated, md_events(a, decorated), 0).seen == Map::<Seq<char>, int>::empty(),
        pulldown_html(a, decorated, transform(decorated, md_events(a, decorated)))
            == pulldown_html(b, decorated, transform(decorated, md_events(b, decorated))),
{
}

/// Whether a heading is open after the first `n` events: the last heading
/// start or end among them is a start.
pub open spec fn heading_open_after(evs: Seq<MdEventView>, n: nat) -> bool
    decreases n,
{
    if n == 0 {
        false
    } else {
        match evs[n - 1] {
            MdEventView::HeadingStart(_) => true,
            MdEventView::HeadingEnd => false,
            _ => heading_open_after(evs, (n - 1) as nat),
        }
    }
}

/// Every heading end closes a heading start, with no other heading start or
/// end between them.
pub open spec fn headings_balanced(evs: Seq<MdEventView>) -> bool {
    forall|j: int| 0 <= j < evs.len() && #[trigger] evs[j] is HeadingEnd ==> heading_open_after(evs, j as nat)
}

/// How many heading ends are among the first `n` events.
pub open spec fn heading_ends(evs: Seq<MdEventView>, n: nat) -> nat
    decreases n,
{
    if n == 0 {
        0
    } else {
        heading_ends(evs, (n - 1) as nat) + if evs[n - 1] is HeadingEnd { 1nat } else { 0nat }
    }
}

/// Indices in HTML events that all point before `n`.
pub open spec fn indices_below(outs: Seq<HtmlEventView>, n: int) -> bool {
    forall|k: int| 0 <= k < outs.len() ==> match #[trigger] outs[k] {
        HtmlEventView::Source(j) => 0 <= j < n,
        HtmlEventView::Heading(j, _) => 0 <= j < n,
        HtmlEventView::Html(_) => true,
    }
}

proof fn lemma_heading_ends_mono(evs: Seq<MdEventView>, a: nat, b: nat)
    requires
        a <= b,
    ensures
        heading_ends(evs, a) <= heading_ends(evs, b),
    decreases b,
{
    if a < b {
        lemma_heading_ends_mono(evs, a, (b - 1) as nat);
    }
}

proof fn lemma_kept_events_push(evs: Seq<MdEventView>, outs: Seq<HtmlEventView>, o: HtmlEventView)
    ensures
        kept_events(evs, outs.push(o)) == if keeps(evs, o) {
            kept_events(evs, outs).push(o)
        } else {
            kept_events(evs, outs)
        },
{
    assert(outs.push(o).drop_last() =~= outs);
}

// ---------------------------------------------------------------------------
// Headings
/// Represents a heading.
pub struct CustomHeading {
    /// Positions of the Markdown events between the heading tags.
    events: Vec<usize>,
    /// Position of the heading start, and the id in its attributes.
    tag: (usize, Option<String>),
}

impl CustomHeading {
    pub closed spec fn inner(&self) -> Seq<int> {
        self.events@.map_values(|j: usize| j as int)
    }

    pub closed spec fn source(&self) -> int {
        self.tag.0 as int
    }

    pub closed spec fn id(&self) -> Option<Seq<char>> {
        match self.tag.1 {
            Some(i) => Some(i@),
            None => None,
        }
    }

    pub closed spec fn matches(&self, h: OpenHeading) -> bool {
        self.inner() == h.inner && self.source() == h.source && self.id() == h.id
    }

    /// The raw events contained between the heading tags.
    pub fn events(&self) -> (r: &Vec<usize>)
        ensures
            r@.map_values(|j: usize| j as int) == self.inner(),
    {
        &self.events
    }

    /// The heading start, and the id in its attributes.
    pub fn tag(&self) -> (r: (usize, Option<String>))
        ensures
            r.0 == self.source(),
            match r.1 {
                Some(i) => self.id() == Some(i@),
                None => self.id() is None,
            },
    {
        let id = match &self.tag.1 {
            Some(i) => Some(i.clone()),
            None => None,
        };
        (self.tag.0, id)
    }

    /// The heading text with all Markdown code stripped out.
    ///
    /// The output of this function can be used to generate an anchor.
    pub fn text(&self, source: &Vec<MdEvent>) -> (r: String)
        requires
            forall|k: int| 0 <= k < self.inner().len() ==> 0 <= #[trigger] self.inner()[k] < source@.len(),
        ensures
            r@ == heading_text(md_views(source@), self.inner()),
    {
        let ghost evs = md_views(source@);
        let mut buf: Vec<char> = Vec::new();
        let mut k: usize = 0;
        while k < self.events.len()
            invariant
                k <= self.events@.len(),
                evs == md_views(source@),
                forall|m: int| 0 <= m < self.inner().len() ==> 0 <= #[trigger] self.inner()[m] < source@.len(),
                buf@ == heading_text(evs, self.inner().take(k as int)),
            decreases self.events@.len() - k,
        {
            let j = self.events[k];
            assert(self.inner()[k as int] == j as int);
            match &source[j] {
                MdEvent::Text(s) => {
                    let cs = chars_of(s.as_str());
                    push_chars(&mut buf, &cs);
                },
                MdEvent::Code(s) => {
                    let cs = chars_of(s.as_str());
                    push_chars(&mut buf, &cs);
                },
                _ => {},
            }
            assert(self.inner().take(k + 1).drop_last() =~= self.inner().take(k as int));
            k = k + 1;
        }
        assert(self.inner().take(k as int) =~= self.inner());
        string_of(&buf)
    }
}

// ---------------------------------------------------------------------------
// The conversion
/// The conversion's state while it walks the parsed events.
struct Converter {
    out: Vec<HtmlEvent>,
    code_block: Option<CodeBlock>,
    current: Option<CustomHeading>,
    slugifier: GitHubSlugifier,
}

/// The executable state agrees with the state after the first `i` events.
spec fn agrees(c: &Converter, st: MdState, i: int) -> bool {
    &&& html_views(c.out@) == st.out
    &&& indices_below(st.out, i)
    &&& (c.code_block is Some) == st.in_code
    &&& match c.current {
        Some(h) => st.heading matches Some(oh) && h.matches(oh) && 0 <= h.source() < i
            && (forall|k: int| 0 <= k < h.inner().len() ==> 0 <= #[trigger] h.inner()[k] < i),
        None => st.heading is None,
    }
    &&& c.slugifier.inv()
    &&& c.slugifier.seen() == st.seen
}

proof fn lemma_html_views_add(a: Seq<HtmlEvent>, b: Seq<HtmlEvent>)
    ensures
        html_views(a + b) == html_views(a) + html_views(b),
{
    assert(html_views(a + b) =~= html_views(a) + html_views(b));
}

proof fn lemma_html_views_push(a: Seq<HtmlEvent>, o: HtmlEvent)
    ensures
        html_views(a.push(o)) == html_views(a).push(o@),
{
    assert(html_views(a.push(o)) =~= html_views(a).push(o@));
}

impl Converter {
    /// Passes the event at `i` on, into the open heading if there is one.
    fn pass_on(&mut self, i: usize, Ghost(st): Ghost<MdState>)
        requires
            agrees(old(self), st, i as int),
        ensures
            agrees(final(self), pass_on(st, i as int), i + 1),
            final(self).slugifier == old(self).slugifier,
    {
        proof {
            lemma_html_views_push(self.out@, HtmlEvent::Source(i));
        }
        if self.current.is_some() {
            let mut h = self.current.take().unwrap();
            h.events.push(i);
            assert(h.inner() =~= st.heading->0.inner.push(i as int));
            self.current = Some(h);
        } else {
            self.out.push(HtmlEvent::Source(i));
        }
    }

    /// Appends HTML events.
    fn emit(&mut self, mut evs: Vec<HtmlEvent>)
        ensures
            html_views(final(self).out@) == html_views(old(self).out@) + html_views(evs@),
            final(self).code_block == old(self).code_block,
            final(self).current == old(self).current,
            final(self).slugifier == old(self).slugifier,
    {
        let ghost before = self.out@;
        let ghost added = evs@;
        self.out.append(&mut evs);
        proof {
            lemma_html_views_add(before, added);
        }
    }

    /// Appends raw HTML.
    fn emit_html(&mut self, html: String)
        ensures
            html_views(final(self).out@) == html_views(old(self).out@).push(HtmlEventView::Html(html@)),
            final(self).code_block == old(self).code_block,
            final(self).current == old(self).current,
            final(self).slugifier == old(self).slugifier,
    {
        proof {
            lemma_html_views_push(self.out@, HtmlEvent::Html(html));
        }
        self.out.push(HtmlEvent::Html(html));
    }

    /// Closes the open heading at the heading end `i`.
    fn end_heading(&mut self, decorated: bool, events: &Vec<MdEvent>, i: usize, Ghost(st): Ghost<MdState>)
        requires
            agrees(old(self), st, i as int),
            st.heading is Some,
            i < events@.len(),
            md_views(events@)[i as int] is HeadingEnd,
            old(self).slugifier.room(),
        ensures
            agrees(final(self), md_step(decorated, md_views(events@), st, i as int), i + 1),
    {
        let ghost evs = md_views(events@);
        let ghost oh = st.heading->0;
        let h = self.current.take().unwrap();
        let text = h.text(events);
        let slug = self.slugifier.slugify(text);
        let (source, id) = h.tag();
        let id_final = match id {
            Some(x) => x,
            None => slug.clone(),
        };
        let ghost slug_s = next_anchor(st.seen, heading_text(evs, oh.inner)).0;
        let ghost id_s = match oh.id {
            Some(x) => x,
            None => slug_s,
        };
        assert(source as int == oh.source);
        assert(text@ == heading_text(evs, oh.inner));
        assert(id_final@ == id_s);
        let inner = h.events();
        let mut mid: Vec<HtmlEvent> = Vec::new();
        let mut k: usize = 0;
        while k < inner.len()
            invariant
                k <= inner@.len(),
                inner@.map_values(|j: usize| j as int) == oh.inner,
                html_views(mid@) == oh.inner.take(k as int).map_values(|j: int| HtmlEventView::Source(j)),
            decreases inner@.len() - k,
        {
            proof {
                lemma_html_views_push(mid@, HtmlEvent::Source(inner[k as int]));
                assert(oh.inner[k as int] == inner@[k as int] as int);
                assert(oh.inner.take(k + 1).map_values(|j: int| HtmlEventView::Source(j)) =~= oh.inner.take(k as int).map_values(|j: int| HtmlEventView::Source(j)).push(HtmlEventView::Source(oh.inner[k as int])));
            }
            mid.push(HtmlEvent::Source(inner[k]));
            k = k + 1;
        }
        assert(oh.inner.take(k as int) =~= oh.inner);
        let mut blk: Vec<HtmlEvent> = Vec::new();
        if decorated {
            blk.push(HtmlEvent::Html(String::from_str("<div class=\"markdown-heading\">\n")));
        }
        blk.push(HtmlEvent::Heading(source, id_final));
        let ghost pre = blk@;
        let ghost mid_v = mid@;
        blk.append(&mut mid);
        proof {
            lemma_html_views_add(pre, mid_v);
            lemma_html_views_push(blk@, HtmlEvent::Source(i));
        }
        blk.push(HtmlEvent::Source(i));
        if decorated {
            let mut link: Vec<char> = Vec::new();
            push_str(&mut link, "<a href=\"#");
            let sc = chars_of(slug.as_str());
            push_chars(&mut link, &sc);
            push_str(&mut link, "\" class=\"anchor\"><svg class=\"octicon octicon-link\" viewBox=\"0 0 16 16\" version=\"1.1\" width=\"16\" height=\"16\" aria-hidden=\"true\"><path d=\"m7.775 3.275 1.25-1.25a3.5 3.5 0 1 1 4.95 4.95l-2.5 2.5a3.5 3.5 0 0 1-4.95 0 .751.751 0 0 1 .018-1.042.751.751 0 0 1 1.042-.018 1.998 1.998 0 0 0 2.83 0l2.5-2.5a2.002 2.002 0 0 0-2.83-2.83l-1.25 1.25a.751.751 0 0 1-1.042-.018.751.751 0 0 1-.018-1.042Zm-4.69 9.64a1.998 1.998 0 0 0 2.83 0l1.25-1.25a.751.751 0 0 1 1.042.018.751.751 0 0 1 .018 1.042l-1.25 1.25a3.5 3.5 0 1 1-4.95-4.95l2.5-2.5a3.5 3.5 0 0 1 4.95 0 .751.751 0 0 1-.018 1.042.751.751 0 0 1-1.042.018 1.998 1.998 0 0 0-2.83 0l-2.5 2.5a1.998 1.998 0 0 0 0 2.83Z\"></path></svg></a>\n");
            let link_s = string_of(&link);
            assert(link_s@ == anchor_link_html(slug_s));
            proof {
                lemma_html_views_push(blk@, HtmlEvent::Html(link_s));
            }
            blk.push(HtmlEvent::Html(link_s));
            let close = String::from_str("</div>\n");
            proof {
                lemma_html_views_push(blk@, HtmlEvent::Html(close));
            }
            blk.push(HtmlEvent::Html(close));
        }
        assert(html_views(blk@) =~= heading_block(decorated, oh, id_s, slug_s, i as int));
        self.emit(blk);
    }

    /// Handles the event at `i`.
    fn step(
        &mut self,
        decorated: bool,
        events: &Vec<MdEvent>,
        settings: &Settings,
        path: Option<&str>,
        i: usize,
    )
        requires
            i < events@.len(),
            agrees(old(self), md_run(decorated, md_views(events@), i as nat), i as int),
            (old(self).current is Some) == heading_open_after(md_views(events@), i as nat),
            headings_balanced(md_views(events@)),
            old(self).slugifier.room(),
        ensures
            agrees(final(self), md_run(decorated, md_views(events@), (i + 1) as nat), i + 1),
            (final(self).current is Some) == heading_open_after(md_views(events@), (i + 1) as nat),
    {
        let ghost evs = md_views(events@);
        let ghost st = md_run(decorated, evs, i as nat);
        assert(evs[i as int] == events@[i as int]@);
        match &events[i] {
            MdEvent::Text(t) => {
                if self.current.is_some() {
                    self.pass_on(i, Ghost(st));
                } else if self.code_block.is_some() {
                    let html = match &self.code_block {
                        Some(block) => block.highlight(t.as_str()),
                        None => String::new(),
                    };
                    self.emit_html(html);
                } else {
                    proof {
                        lemma_html_views_push(self.out@, HtmlEvent::Source(i));
                    }
                    self.out.push(HtmlEvent::Source(i));
                }
            },
            MdEvent::HeadingStart(id) => {
                let id2 = match id {
                    Some(x) => Some(x.clone()),
                    None => None,
                };
                let h = CustomHeading { events: Vec::new(), tag: (i, id2) };
                assert(h.inner() =~= Seq::<int>::empty());
                self.current = Some(h);
            },
            MdEvent::HeadingEnd => {
                assert(heading_open_after(evs, i as nat));
                self.end_heading(decorated, events, i, Ghost(st));
            },
            MdEvent::BlockQuoteStart(k) => {
                if decorated {
                    let mut buf: Vec<char> = Vec::new();
                    push_str(&mut buf, "<blockquote");
                    push_alert_class(&mut buf, *k);
                    push_str(&mut buf, ">\n");
                    push_alert_title(&mut buf, *k);
                    self.emit_html(string_of(&buf));
                } else {
                    self.pass_on(i, Ghost(st));
                }
            },
            MdEvent::CodeBlockStart(info) => {
                let fence = FenceSettings::new(info.as_str());
                let (block, begin) = CodeBlock::new(&fence, settings, path);
                let mut blk: Vec<HtmlEvent> = Vec::new();
                if decorated {
                    blk.push(HtmlEvent::Html(String::from_str("<div class=\"code-block\">")));
                    let mut buf: Vec<char> = Vec::new();
                    push_str(&mut buf, "<div class=\"language-name\">");
                    match &fence.language {
                        Some(l) => {
                            let lc = chars_of(l.as_str());
                            push_chars(&mut buf, &lc);
                        },
                        None => {
                            push_str(&mut buf, "code");
                        },
                    }
                    push_str(&mut buf, "</div>");
                    blk.push(HtmlEvent::Html(string_of(&buf)));
                    blk.push(HtmlEvent::Html(String::from_str("<button class=\"copy-to-clipboard\" title=\"Copy to clipboard\"><svg class=\"h-6 w-6 fill-white\" xmlns=\"http://www.w3.org/2000/svg\" x=\"0px\" y=\"0px\" viewBox=\"0 0 24 24\"><path d=\"M 4 2 C 2.895 2 2 2.895 2 4 L 2 17 C 2 17.552 2.448 18 3 18 C 3.552 18 4 17.552 4 17 L 4 4 L 17 4 C 17.552 4 18 3.552 18 3 C 18 2.448 17.552 2 17 2 L 4 2 z M 8 6 C 6.895 6 6 6.895 6 8 L 6 20 C 6 21.105 6.895 22 8 22 L 20 22 C 21.105 22 22 21.105 22 20 L 22 8 C 22 6.895 21.105 6 20 6 L 8 6 z M 8 8 L 20 8 L 20 20 L 8 20 L 8 8 z\"></path></svg></button>\n")));
                }
                blk.push(HtmlEvent::Html(begin));
                assert(html_views(blk@) =~= code_block_open(decorated, info@));
                self.emit(blk);
                self.code_block = Some(block);
            },
            MdEvent::CodeBlockEnd => {
                if decorated {
                    self.emit_html(String::from_str("</code></pre></div>\n"));
                } else {
                    self.emit_html(String::from_str("</code></pre>\n"));
                }
                self.code_block = None;
            },
            _ => {
                self.pass_on(i, Ghost(st));
            },
        }
    }
}

/// Turns parsed Markdown events into the HTML events to write: headings get
/// an id (the one in their attributes, else their anchor) and, when
/// `decorated`, a wrapper and an anchor link; code blocks get their opening
/// and closing HTML and their text escaped; alerts get their class and title;
/// empty text and HTML are dropped.
pub fn transform_events(
    decorated: bool,
    events: &Vec<MdEvent>,
    settings: &Settings,
    path: Option<&str>,
) -> (r: Vec<HtmlEvent>)
    requires
        headings_balanced(md_views(events@)),
        heading_ends(md_views(events@), events@.len()) < i32::MAX,
    ensures
        html_views(r@) == transform(decorated, md_views(events@)),
        indices_below(html_views(r@), events@.len() as int),
{
    let ghost evs = md_views(events@);
    let mut c = Converter {
        out: Vec::new(),
        code_block: None,
        current: None,
        slugifier: GitHubSlugifier::new(),
    };
    assert(html_views(c.out@) =~= Seq::<HtmlEventView>::empty());
    let n = events.len();
    let mut i: usize = 0;
    while i < n
        invariant
            n == events@.len(),
            evs == md_views(events@),
            evs.len() == n,
            i <= n,
            headings_balanced(evs),
            heading_ends(evs, n as nat) < i32::MAX,
            agrees(&c, md_run(decorated, evs, i as nat), i as int),
            (c.current is Some) == heading_open_after(evs, i as nat),
            forall|k: Seq<char>| #[trigger] c.slugifier.seen().contains_key(k) ==> c.slugifier.seen()[k] <= heading_ends(evs, i as nat),
        decreases n - i,
    {
        proof {
            lemma_heading_ends_mono(evs, (i + 1) as nat, n as nat);
            c.slugifier.lemma_room(heading_ends(evs, i as nat) as int);
        }
        c.step(decorated, events, settings, path, i);
        i = i + 1;
    }
    drop_empty(events, &c.out)
}

/// Drops empty text and empty HTML.
fn drop_empty(events: &Vec<MdEvent>, out: &Vec<HtmlEvent>) -> (r: Vec<HtmlEvent>)
    requires
        indices_below(html_views(out@), events@.len() as int),
    ensures
        html_views(r@) == kept_events(md_views(events@), html_views(out@)),
        indices_below(html_views(r@), events@.len() as int),
{
    let ghost evs = md_views(events@);
    let ghost all = html_views(out@);
    let n = events.len();
    let mut kept: Vec<HtmlEvent> = Vec::new();
    let mut k: usize = 0;
    assert(html_views(kept@) =~= kept_events(evs, all.take(0)));
    while k < out.len()
        invariant
            k <= out@.len(),
            all == html_views(out@),
            evs == md_views(events@),
            indices_below(all, n as int),
            n == events@.len(),
            html_views(kept@) == kept_events(evs, all.take(k as int)),
            indices_below(html_views(kept@), n as int),
        decreases out@.len() - k,
    {
        let keep = match &out[k] {
            HtmlEvent::Html(s) => !s.as_str().is_empty(),
            HtmlEvent::Source(j) => {
                assert(all[k as int] == HtmlEventView::Source(*j as int));
                assert(evs[*j as int] == events@[*j as int]@);
                match &events[*j] {
                    MdEvent::Text(t) => !t.as_str().is_empty(),
                    MdEvent::Html(t) => !t.as_str().is_empty(),
                    _ => true,
                }
            },
            HtmlEvent::Heading(_, _) => true,
        };
        proof {
            lemma_kept_events_push(evs, all.take(k as int), all[k as int]);
            assert(all.take(k + 1) =~= all.take(k as int).push(all[k as int]));
        }
        if keep {
            let o = clone_html_event(&out[k]);
            proof {
                lemma_html_views_push(kept@, o);
            }
            kept.push(o);
        }
        k = k + 1;
    }
    assert(all.take(k as int) =~= all);
    kept
}

fn clone_html_event(o: &HtmlEvent) -> (r: HtmlEvent)
    ensures
        r@ == o@,
{
    match o {
        HtmlEvent::Source(j) => HtmlEvent::Source(*j),
        HtmlEvent::Html(s) => HtmlEvent::Html(s.clone()),
        HtmlEvent::Heading(j, s) => HtmlEvent::Heading(*j, s.clone()),
    }
}

fn push_alert_class(out: &mut Vec<char>, kind: Option<u8>)
    ensures
        final(out)@ == old(out)@ + alert_class(kind),
{
    match kind {
        None => push_str(out, ""),
        Some(k) => if k == 0 {
            push_str(out, " class=\"markdown-alert markdown-alert-note\"")
        } else if k == 1 {
            push_str(out, " class=\"markdown-alert markdown-alert-tip\"")
        } else if k == 2 {
            push_str(out, " class=\"markdown-alert markdown-alert-important\"")
        } else if k == 3 {
            push_str(out, " class=\"markdown-alert markdown-alert-warning\"")
        } else {
            push_str(out, " class=\"markdown-alert markdown-alert-caution\"")
        },
    }
}

fn push_alert_title(out: &mut Vec<char>, kind: Option<u8>)
    ensures
        final(out)@ == old(out)@ + alert_title(kind),
{
    match kind {
        None => push_str(out, ""),
        Some(k) => if k == 0 {
            push_str(out, "<p class=\"markdown-alert-title\">\n<svg viewBox=\"0 0 16 16\" version=\"1.1\" width=\"16\" height=\"16\" aria-hidden=\"true\"><path d=\"M0 8a8 8 0 1 1 16 0A8 8 0 0 1 0 8Zm8-6.5a6.5 6.5 0 1 0 0 13 6.5 6.5 0 0 0 0-13ZM6.5 7.75A.75.75 0 0 1 7.25 7h1a.75.75 0 0 1 .75.75v2.75h.25a.75.75 0 0 1 0 1.5h-2a.75.75 0 0 1 0-1.5h.25v-2h-.25a.75.75 0 0 1-.75-.75ZM8 6a1 1 0 1 1 0-2 1 1 0 0 1 0 2Z\"></path></svg>\nNote</p>\n")
        } else if k == 1 {
            push_str(out, "<p class=\"markdown-alert-title\">\n<svg viewBox=\"0 0 16 16\" version=\"1.1\" width=\"16\" height=\"16\" aria-hidden=\"true\"><path d=\"M8 1.5c-2.363 0-4 1.69-4 3.75 0 .984.424 1.625.984 2.304l.214.253c.223.264.47.556.673.848.284.411.537.896.621 1.49a.75.75 0 0 1-1.484.211c-.04-.282-.163-.547-.37-.847a8.456 8.456 0 0 0-.542-.68c-.084-.1-.173-.205-.268-.32C3.201 7.75 2.5 6.766 2.5 5.25 2.5 2.31 4.863 0 8 0s5.5 2.31 5.5 5.25c0 1.516-.701 2.5-1.328 3.259-.095.115-.184.22-.268.319-.207.245-.383.453-.541.681-.208.3-.33.565-.37.847a.751.751 0 0 1-1.485-.212c.084-.593.337-1.078.621-1.489.203-.292.45-.584.673-.848.075-.088.147-.173.213-.253.561-.679.985-1.32.985-2.304 0-2.06-1.637-3.75-4-3.75ZM5.75 12h4.5a.75.75 0 0 1 0 1.5h-4.5a.75.75 0 0 1 0-1.5ZM6 15.25a.75.75 0 0 1 .75-.75h2.5a.75.75 0 0 1 0 1.5h-2.5a.75.75 0 0 1-.75-.75Z\"></path></svg>\nTip</p>\n")
        } else if k == 2 {
            push_str(out, "<p class=\"markdown-alert-title\">\n<svg viewBox=\"0 0 16 16\" version=\"1.1\" width=\"16\" height=\"16\" aria-hidden=\"true\"><path d=\"M0 1.75C0 .784.784 0 1.75 0h12.5C15.216 0 16 .784 16 1.75v9.5A1.75 1.75 0 0 1 14.25 13H8.06l-2.573 2.573A1.458 1.458 0 0 1 3 14.543V13H1.75A1.75 1.75 0 0 1 0 11.25Zm1.75-.25a.25.25 0 0 0-.25.25v9.5c0 .138.112.25.25.25h2a.75.75 0 0 1 .75.75v2.19l2.72-2.72a.749.749 0 0 1 .53-.22h6.5a.25.25 0 0 0 .25-.25v-9.5a.25.25 0 0 0-.25-.25Zm7 2.25v2.5a.75.75 0 0 1-1.5 0v-2.5a.75.75 0 0 1 1.5 0ZM9 9a1 1 0 1 1-2 0 1 1 0 0 1 2 0Z\"></path></svg>\nImportant</p>\n")
        } else if k == 3 {
            push_str(out, "<p class=\"markdown-alert-title\">\n<svg class=\"octicon octicon-alert mr-2\" viewBox=\"0 0 16 16\" version=\"1.1\" width=\"16\" height=\"16\" aria-hidden=\"true\"><path d=\"M6.457 1.047c.659-1.234 2.427-1.234 3.086 0l6.082 11.378A1.75 1.75 0 0 1 14.082 15H1.918a1.75 1.75 0 0 1-1.543-2.575Zm1.763.707a.25.25 0 0 0-.44 0L1.698 13.132a.25.25 0 0 0 .22.368h12.164a.25.25 0 0 0 .22-.368Zm.53 3.996v2.5a.75.75 0 0 1-1.5 0v-2.5a.75.75 0 0 1 1.5 0ZM9 11a1 1 0 1 1-2 0 1 1 0 0 1 2 0Z\"></path></svg>\nWarning</p>\n")
        } else {
            push_str(out, "<p class=\"markdown-alert-title\">\n<svg viewBox=\"0 0 16 16\" version=\"1.1\" width=\"16\" height=\"16\" aria-hidden=\"true\"><path d=\"M4.47.22A.749.749 0 0 1 5 0h6c.199 0 .389.079.53.22l4.25 4.25c.141.14.22.331.22.53v6a.749.749 0 0 1-.22.53l-4.25 4.25A.749.749 0 0 1 11 16H5a.749.749 0 0 1-.53-.22L.22 11.53A.749.749 0 0 1 0 11V5c0-.199.079-.389.22-.53Zm.84 1.28L1.5 5.31v5.38l3.81 3.81h5.38l3.81-3.81V5.31L10.69 1.5ZM8 4a.75.75 0 0 1 .75.75v3.5a.75.75 0 0 1-1.5 0v-3.5A.75.75 0 0 1 8 4Zm0 8a1 1 0 1 1 0-2 1 1 0 0 1 0 2Z\"></path></svg>\nCaution</p>\n")
        },
    }
}

} // verus!

verus! {

// ---------------------------------------------------------------------------
// Parsing, reading and writing
/// Parses a Markdown text and reads each of its events.
fn parse_and_classify(md: &str, extended: bool) -> (r: (ParsedMarkdown, Vec<MdEvent>))
    ensures
        r.0@ == (md@, extended),
        md_views(r.1@) == md_events(md@, extended),
        headings_balanced(md_events(md@, extended)),
{
    let doc = if extended { ParsedMarkdown::parse_extended(md) } else { ParsedMarkdown::parse(md) };
    let ghost all = md_events(md@, extended);
    let n = doc.len();
    let mut kinds: Vec<MdEvent> = Vec::new();
    let mut i: usize = 0;
    while i < n
        invariant
            i <= n,
            n == all.len(),
            doc@ == (md@, extended),
            all == md_events(md@, extended),
            md_views(kinds@) == all.take(i as int),
        decreases n - i,
    {
        let k = doc.event(i);
        assert(md_views(kinds@.push(k)) =~= md_views(kinds@).push(k@));
        kinds.push(k);
        i = i + 1;
        assert(all.take(i as int) =~= all.take(i - 1).push(all[i - 1]));
    }
    assert(all.take(i as int) =~= all);
    (doc, kinds)
}

/// Counts the heading ends.
fn count_heading_ends(events: &Vec<MdEvent>) -> (r: u64)
    ensures
        r == heading_ends(md_views(events@), events@.len()),
{
    let ghost evs = md_views(events@);
    let mut count: u64 = 0;
    let mut i: usize = 0;
    while i < events.len()
        invariant
            i <= events@.len(),
            evs == md_views(events@),
            count == heading_ends(evs, i as nat),
            count <= i,
        decreases events@.len() - i,
    {
        assert(evs[i as int] == events@[i as int]@);
        if let MdEvent::HeadingEnd = &events[i] {
            count = count + 1;
        }
        i = i + 1;
    }
    count
}

/// The whole conversion of a Markdown text.
pub(crate) fn convert_markdown(
    decorated: bool,
    extended: bool,
    md: &str,
    settings: &Settings,
    path: Option<&str>,
) -> (r: String)
    requires
        heading_ends(md_events(md@, extended), md_events(md@, extended).len()) < i32::MAX,
    ensures
        r@ == pulldown_html(md@, extended, transform(decorated, md_events(md@, extended))),
{
    let (doc, kinds) = parse_and_classify(md, extended);
    let out = transform_events(decorated, &kinds, settings, path);
    doc.render(&out)
}

/// Whether a Markdown text has fewer than `i32::MAX` headings, so that the
/// anchor counters cannot overflow.
pub(crate) fn headings_fit(md: &str, extended: bool) -> (r: bool)
    ensures
        r == (heading_ends(md_events(md@, extended), md_events(md@, extended).len()) < i32::MAX),
{
    let (_doc, kinds) = parse_and_classify(md, extended);
    let n = count_heading_ends(&kinds);
    n < 0x7fff_ffff
}

/// Converts Markdown to HTML: headings get an id (the one in their
/// attributes, else their GitHub-style anchor), a wrapper and an anchor link;
/// code blocks get a language label, a copy button and escaped content;
/// GitHub alerts get their class and title.
pub fn convert_md_to_html(md_content: &str, settings: &Settings, path: Option<&str>) -> (r: String)
    requires
        heading_ends(md_events(md_content@, true), md_events(md_content@, true).len()) < i32::MAX,
    ensures
        r@ == pulldown_html(md_content@, true, transform(true, md_events(md_content@, true))),
{
    convert_markdown(true, true, md_content, settings, path)
}

/// `convert_md_to_html` on a text with fewer than `i32::MAX` headings;
/// `None` for a text with more, on which the anchor counters would overflow.
pub fn checked_convert_md_to_html(md_content: &str, settings: &Settings, path: Option<&str>) -> (r: Option<String>)
    ensures
        match r {
            Some(h) => heading_ends(md_events(md_content@, true), md_events(md_content@, true).len()) < i32::MAX
                && h@ == pulldown_html(md_content@, true, transform(true, md_events(md_content@, true))),
            None => heading_ends(md_events(md_content@, true), md_events(md_content@, true).len()) >= i32::MAX,
        },
{
    if headings_fit(md_content, true) {
        Some(convert_md_to_html(md_content, settings, path))
    } else {
        None
    }
}

} // verus!
