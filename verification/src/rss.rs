//! The Atom feed of the posts, oldest first.
use vstd::prelude::*;
use atom_syndication::{Content, Entry, Feed, Link, Person, Source, Text};
use crate::config::Settings;
use crate::post::{Post, PostDate, opt_view, strings_view};
use crate::text::{chars_of, string_of, push_str};
use crate::sort::sort_by_key;
use crate::content::post_date_keys;
use crate::content::date_order_key;
use crate::sitemap::{all_positions, positions_by_date};
use crate::markdown::{checked_convert_md_to_html, heading_ends, transform};
use crate::markdown::pulldown::{md_events, pulldown_html};
use vstd::string::StringExecFns;

verus! {

#[verifier::external_type_specification]
#[verifier::external_body]
pub struct ExAtomError(atom_syndication::Error);

#[verifier::external_type_specification]
#[verifier::external_body]
pub struct ExLink(Link);

#[verifier::external_type_specification]
#[verifier::external_body]
pub struct ExPerson(Person);

#[verifier::external_type_specification]
#[verifier::external_body]
pub struct ExEntry(Entry);

#[verifier::external_type_specification]
#[verifier::external_body]
pub struct ExFeed(Feed);

#[verifier::external_type_specification]
#[verifier::external_body]
pub struct ExSource(Source);

#[verifier::external_type_specification]
#[verifier::external_body]
pub struct ExContent(Content);

// ---------------------------------------------------------------------------
// The feed's values
/// A link of a feed or an entry.
pub struct AtomLink {
    pub rel: String,
    pub href: String,
}

/// The source of an entry.
pub struct AtomSource {
    pub title: String,
    pub id: String,
    pub updated: PostDate,
}

/// The content of an entry.
pub struct AtomContent {
    pub value: String,
    pub content_type: String,
}

/// An entry of the feed.
pub struct AtomEntry {
    pub title: String,
    pub id: String,
    pub updated: PostDate,
    pub authors: Vec<String>,
    pub contributors: Vec<String>,
    pub links: Vec<AtomLink>,
    pub published: Option<PostDate>,
    pub summary: Option<String>,
    pub rights: Option<String>,
    pub content: Option<AtomContent>,
    pub source: Option<AtomSource>,
}

/// An Atom feed.
pub struct AtomFeed {
    pub links: Vec<AtomLink>,
    pub authors: Vec<String>,
    pub rights: Option<String>,
    pub base: Option<String>,
    pub lang: Option<String>,
    pub id: String,
    pub title: String,
    pub updated: PostDate,
    pub entries: Vec<AtomEntry>,
}

pub struct AtomLinkView {
    pub rel: Seq<char>,
    pub href: Seq<char>,
}

pub struct AtomSourceView {
    pub title: Seq<char>,
    pub id: Seq<char>,
    pub updated: PostDate,
}

pub struct AtomContentView {
    pub value: Seq<char>,
    pub content_type: Seq<char>,
}

pub struct AtomEntryView {
    pub title: Seq<char>,
    pub id: Seq<char>,
    pub updated: PostDate,
    pub authors: Seq<Seq<char>>,
    pub contributors: Seq<Seq<char>>,
    pub links: Seq<AtomLinkView>,
    pub published: Option<PostDate>,
    pub summary: Option<Seq<char>>,
    pub rights: Option<Seq<char>>,
    pub content: Option<AtomContentView>,
    pub source: Option<AtomSourceView>,
}

pub struct AtomFeedView {
    pub links: Seq<AtomLinkView>,
    pub authors: Seq<Seq<char>>,
    pub rights: Option<Seq<char>>,
    pub base: Option<Seq<char>>,
    pub lang: Option<Seq<char>>,
    pub id: Seq<char>,
    pub title: Seq<char>,
    pub updated: PostDate,
    pub entries: Seq<AtomEntryView>,
}

impl View for AtomLink {
    type V = AtomLinkView;

    open spec fn view(&self) -> AtomLinkView {
        AtomLinkView { rel: self.rel@, href: self.href@ }
    }
}

impl View for AtomSource {
    type V = AtomSourceView;

    open spec fn view(&self) -> AtomSourceView {
        AtomSourceView { title: self.title@, id: self.id@, updated: self.updated }
    }
}

impl View for AtomContent {
    type V = AtomContentView;

    open spec fn view(&self) -> AtomContentView {
        AtomContentView { value: self.value@, content_type: self.content_type@ }
    }
}

pub open spec fn links_view(links: Seq<AtomLink>) -> Seq<AtomLinkView> {
    links.map_values(|l: AtomLink| l@)
}

impl View for AtomEntry {
    type V = AtomEntryView;

    open spec fn view(&self) -> AtomEntryView {
        AtomEntryView {
            title: self.title@,
            id: self.id@,
            updated: self.updated,
            authors: strings_view(self.authors@),
            contributors: strings_view(self.contributors@),
            links: links_view(self.links@),
            published: self.published,
            summary: opt_view(self.summary),
            rights: opt_view(self.rights),
            content: match self.content {
                Some(c) => Some(c@),
                None => None,
            },
            source: match self.source {
                Some(s) => Some(s@),
                None => None,
            },
        }
    }
}

impl View for AtomFeed {
    type V = AtomFeedView;

    open spec fn view(&self) -> AtomFeedView {
        AtomFeedView {
            links: links_view(self.links@),
            authors: strings_view(self.authors@),
            rights: opt_view(self.rights),
            base: opt_view(self.base),
            lang: opt_view(self.lang),
            id: self.id@,
            title: self.title@,
            updated: self.updated,
            entries: self.entries@.map_values(|e: AtomEntry| e@),
        }
    }
}

impl AtomEntry {
    /// Its dates are ones chrono can hold.
    pub open spec fn wf(&self) -> bool {
        &&& self.updated.valid()
        &&& self.published matches Some(d) ==> d.valid()
        &&& self.source matches Some(s) ==> s.updated.valid()
    }
}

impl AtomFeed {
    /// Its dates are ones chrono can hold.
    pub open spec fn wf(&self) -> bool {
        &&& self.updated.valid()
        &&& forall|i: int| 0 <= i < self.entries@.len() ==> (#[trigger] self.entries@[i]).wf()
    }
}

// ---------------------------------------------------------------------------
// Writing with atom_syndication
/// The XML that `atom_syndication::Feed::write_to` writes for the feed
/// holding these values (its other fields at their defaults).
pub uninterp spec fn atom_xml(feed: AtomFeedView) -> Seq<u8>;

/// A link as `atom_syndication::Link`.
#[verifier::external_body]
fn to_link(l: &AtomLink) -> Link {
    Link { rel: l.rel.clone(), href: l.href.clone(), ..Link::default() }
}

/// A person, by name, as `atom_syndication::Person`.
#[verifier::external_body]
fn to_person(name: &String) -> Person {
    Person { name: name.clone(), ..Person::default() }
}

/// A content as `atom_syndication::Content`.
#[verifier::external_body]
fn to_content(c: &AtomContent) -> Content {
    Content { value: Some(c.value.clone()), content_type: Some(c.content_type.clone()), ..Content::default() }
}

/// A source as `atom_syndication::Source`.
#[verifier::external_body]
fn to_source(s: &AtomSource) -> Source
    requires
        s.updated.valid(),
{
    let offset = chrono::FixedOffset::east_opt(s.updated.offset).unwrap();
    let updated = chrono::DateTime::from_timestamp(s.updated.timestamp, s.updated.nanosecond).unwrap().with_timezone(&offset);
    Source { title: Text::plain(s.title.clone()), id: s.id.clone(), updated, ..Source::default() }
}

/// An entry's title, id and dates, as `atom_syndication::Entry`.
#[verifier::external_body]
fn dated_entry(e: &AtomEntry) -> Entry
    requires
        e.wf(),
{
    let fixed = |d: &PostDate| chrono::DateTime::from_timestamp(d.timestamp, d.nanosecond).unwrap()
        .with_timezone(&chrono::FixedOffset::east_opt(d.offset).unwrap());
    Entry {
        title: Text::plain(e.title.clone()),
        id: e.id.clone(),
        updated: fixed(&e.updated),
        published: e.published.as_ref().map(fixed),
        ..Entry::default()
    }
}

/// An entry as `atom_syndication::Entry`.
#[verifier::external_body]
fn to_entry(e: &AtomEntry) -> Entry
    requires
        e.wf(),
{
    Entry {
        authors: e.authors.iter().map(to_person).collect(),
        contributors: e.contributors.iter().map(to_person).collect(),
        links: e.links.iter().map(to_link).collect(),
        summary: e.summary.clone().map(Text::plain),
        rights: e.rights.clone().map(Text::plain),
        content: e.content.as_ref().map(to_content),
        source: e.source.as_ref().map(to_source),
        ..dated_entry(e)
    }
}

/// A feed as `atom_syndication::Feed`.
#[verifier::external_body]
fn to_feed(f: &AtomFeed) -> Feed
    requires
        f.wf(),
{
    let offset = chrono::FixedOffset::east_opt(f.updated.offset).unwrap();
    Feed {
        links: f.links.iter().map(to_link).collect(),
        authors: f.authors.iter().map(to_person).collect(),
        rights: f.rights.clone().map(Text::plain),
        base: f.base.clone(),
        lang: f.lang.clone(),
        id: f.id.clone(),
        title: Text::plain(f.title.clone()),
        updated: chrono::DateTime::from_timestamp(f.updated.timestamp, f.updated.nanosecond).unwrap().with_timezone(&offset),
        entries: f.entries.iter().map(to_entry).collect(),
        ..Feed::default()
    }
}

/// `atom_syndication::Feed::write_to` into a buffer, of the feed holding
/// these values. The feed is written through `quick_xml` into the writer it
/// is given, and its only errors on writing are that writer's: writing into
/// a `Vec<u8>` does not fail, so the result is `Ok`.
#[verifier::external_body]
fn feed_to_xml(feed: &AtomFeed) -> (r: Result<Vec<u8>, atom_syndication::Error>)
    requires
        feed.wf(),
    ensures
        r is Ok,
        r matches Ok(bytes) ==> bytes@ == atom_xml(feed@),
{
    to_feed(feed).write_to(Vec::new())
}

/// The time now, with a zero offset.
#[verifier::external_body]
fn now_date() -> (r: PostDate)
    ensures
        r.valid(),
{
    let now = chrono::Utc::now();
    PostDate { timestamp: now.timestamp(), nanosecond: now.timestamp_subsec_nanos(), offset: 0 }
}

// ---------------------------------------------------------------------------
// The feed of the posts
pub open spec fn license_url() -> Seq<char> {
    "https://creativecommons.org/licenses/by/4.0/"@
}

pub open spec fn rights_text() -> Seq<char> {
    "CC-By Licence"@
}

/// The HTML of a post in the feed.
pub open spec fn feed_html(post: Post) -> Seq<char> {
    pulldown_html(post.content@, true, transform(true, md_events(post.content@, true)))
}

/// A post's Markdown converts: fewer than `i32::MAX` headings.
pub open spec fn feed_converts(post: Post) -> bool {
    heading_ends(md_events(post.content@, true), md_events(post.content@, true).len()) < i32::MAX
}

/// The entry of a post: its title, its id and link (the base, `/` and its
/// encoded URL path), its date as update and publication, the author as
/// author and contributor, its excerpt as summary, its HTML as content, and
/// a source with its title, id and date.
pub open spec fn entry_for(post: Post, base: Seq<char>, author: Seq<char>) -> AtomEntryView {
    let id = base + seq!['/'] + post.url_path_encoded@;
    AtomEntryView {
        title: post.front_matter.title@,
        id: id,
        updated: post.front_matter.date,
        authors: seq![author],
        contributors: seq![author],
        links: seq![AtomLinkView { rel: "alternate"@, href: id }],
        published: Some(post.front_matter.date),
        summary: Some(match post.excerpt {
            Some(e) => e@,
            None => Seq::<char>::empty(),
        }),
        rights: Some(rights_text()),
        content: Some(AtomContentView { value: feed_html(post), content_type: "html"@ }),
        source: Some(AtomSourceView { title: post.front_matter.title@, id: id, updated: post.front_matter.date }),
    }
}

/// The entries of the posts at these positions.
pub open spec fn entries_for(posts: Seq<Post>, order: Seq<int>, base: Seq<char>, author: Seq<char>) -> Seq<AtomEntryView> {
    order.map_values(|i: int| entry_for(posts[i], base, author))
}

/// The feed of the posts: oldest first (posts with the same date in their
/// order), updated at `updated`, with the base and the license as links, the
/// author, the rights, the base, the language `fr-FR`, the id `base/` and
/// the title.
pub open spec fn feed_for(posts: Seq<Post>, base: Seq<char>, author: Seq<char>, title: Seq<char>, updated: PostDate) -> AtomFeedView {
    AtomFeedView {
        links: seq![
            AtomLinkView { rel: "alternate"@, href: base },
            AtomLinkView { rel: "license"@, href: license_url() },
        ],
        authors: seq![author],
        rights: Some(rights_text()),
        base: Some(base),
        lang: Some("fr-FR"@),
        id: base + seq!['/'],
        title: title,
        updated: updated,
        entries: entries_for(posts, sort_by_key(post_date_keys(posts), all_positions(posts.len()), false), base, author),
    }
}

/// The newest date among posts: that of the last post in date order.
pub open spec fn newest_date(posts: Seq<Post>) -> PostDate {
    let order = sort_by_key(post_date_keys(posts), all_positions(posts.len()), false);
    posts[order.last()].front_matter.date
}

/// The feed is updated at the newest post's date: no post is newer, in the
/// order of chrono's dates (by the second, then the nanosecond).
pub proof fn law_feed_updated_at_newest_post(posts: Seq<Post>)
    requires
        posts.len() > 0,
    ensures
        forall|i: int| 0 <= i < posts.len() ==>
            date_order_key((#[trigger] posts[i]).front_matter.date) <= date_order_key(newest_date(posts)),
{
    let keys = post_date_keys(posts);
    let all = all_positions(posts.len());
    let order = sort_by_key(keys, all, false);
    crate::sort::lemma_sort_by_key(keys, all, false);
    crate::sort::lemma_sort_same_elements(keys, all, false);
    let last = order.last();
    assert(order.contains(last)) by {
        assert(order[order.len() - 1] == last);
    }
    assert(0 <= last < posts.len()) by {
        assert(all.contains(last));
        let k = choose|k: int| 0 <= k < all.len() && all[k] == last;
    }
    assert forall|i: int| 0 <= i < posts.len() implies
        date_order_key((#[trigger] posts[i]).front_matter.date) <= date_order_key(newest_date(posts)) by {
        assert(all[i] == i);
        assert(all.contains(i));
        assert(order.contains(i));
        let j = choose|j: int| 0 <= j < order.len() && order[j] == i;
        if j < order.len() - 1 {
            assert(crate::sort::key_le(keys, order[j], order[order.len() - 1], false));
        }
        assert(keys[i] == date_order_key(posts[i].front_matter.date));
        assert(keys[order.last()] == date_order_key(posts[order.last()].front_matter.date));
    }
}

/// Whether a feed entry is made from this post: it has the post's title,
/// also as its source's title, the post's date as its date of update, and the
/// base, `/` and the post's encoded URL path as its id.
pub open spec fn entry_made_from(e: AtomEntryView, post: Post, base: Seq<char>) -> bool {
    &&& e.title == post.front_matter.title@
    &&& e.source matches Some(s) && s.title == post.front_matter.title@
    &&& e.updated == post.front_matter.date
    &&& e.id == base + seq!['/'] + post.url_path_encoded@
}

/// The feed has one entry per post: every entry is made from a post, with
/// that post's title, date and URL, and every post has an entry made from it.
pub proof fn law_feed_entries_are_the_posts(
    posts: Seq<Post>,
    base: Seq<char>,
    author: Seq<char>,
    title: Seq<char>,
    updated: PostDate,
)
    ensures
        feed_for(posts, base, author, title, updated).entries.len() == posts.len(),
        forall|k: int| 0 <= k < posts.len() ==> exists|i: int|
            0 <= i < posts.len() && entry_made_from(
                #[trigger] feed_for(posts, base, author, title, updated).entries[k],
                posts[i],
                base,
            ),
        forall|i: int| 0 <= i < posts.len() ==> exists|k: int|
            0 <= k < posts.len() && entry_made_from(
                feed_for(posts, base, author, title, updated).entries[k],
                #[trigger] posts[i],
                base,
            ),
{
    let keys = post_date_keys(posts);
    let all = all_positions(posts.len());
    let order = sort_by_key(keys, all, false);
    let entries = feed_for(posts, base, author, title, updated).entries;
    crate::sort::lemma_sort_same_elements(keys, all, false);
    assert(entries == entries_for(posts, order, base, author));
    assert forall|k: int| 0 <= k < posts.len() implies exists|i: int|
        0 <= i < posts.len() && entry_made_from(#[trigger] entries[k], posts[i], base) by {
        assert(order.contains(order[k]));
        assert(all.contains(order[k]));
        let j = choose|j: int| 0 <= j < all.len() && all[j] == order[k];
        assert(entries[k] == entry_for(posts[order[k]], base, author));
        assert(entry_made_from(entries[k], posts[order[k]], base));
    }
    assert forall|i: int| 0 <= i < posts.len() implies exists|k: int|
        0 <= k < posts.len() && entry_made_from(entries[k], #[trigger] posts[i], base) by {
        assert(all[i] == i);
        assert(all.contains(i));
        assert(order.contains(i));
        let k = choose|k: int| 0 <= k < order.len() && order[k] == i;
        assert(entries[k] == entry_for(posts[i], base, author));
        assert(entry_made_from(entries[k], posts[i], base));
    }
}

/// Why the feed could not be written.
#[derive(Debug)]
pub enum AtomFeedError {
    /// A post's Markdown has too many headings to convert.
    TooManyHeadings,
    /// `atom_syndication` could not write the feed.
    Atom(atom_syndication::Error),
}

fn one_string(s: &str) -> (r: Vec<String>)
    ensures
        strings_view(r@) == seq![s@],
{
    let mut v: Vec<String> = Vec::new();
    v.push(String::from_str(s));
    assert(strings_view(v@) =~= seq![s@]);
    v
}

/// The feed's values for the posts: `None` when a post's Markdown has too
/// many headings to convert.
pub fn atom_feed_for_posts(
    posts: &[Post],
    base: &str,
    author: &str,
    title: &str,
    updated: PostDate,
    settings: &Settings,
) -> (r: Option<AtomFeed>)
    requires
        updated.valid(),
        forall|i: int| 0 <= i < posts@.len() ==> (#[trigger] posts@[i]).wf(),
    ensures
        r is Some <==> forall|i: int| 0 <= i < posts@.len() ==> feed_converts(#[trigger] posts@[i]),
        r matches Some(feed) ==> feed@ == feed_for(posts@, base@, author@, title@, updated) && feed.wf(),
{
    let order = positions_by_date(posts, false);
    let ghost ord = order@.map_values(|i: usize| i as int);
    let mut entries: Vec<AtomEntry> = Vec::new();
    let mut k: usize = 0;
    while k < order.len()
        invariant
            k <= order@.len(),
            ord == order@.map_values(|i: usize| i as int),
            ord == sort_by_key(post_date_keys(posts@), all_positions(posts@.len()), false),
            forall|i: int| 0 <= i < order@.len() ==> #[trigger] order@[i] < posts@.len(),
            forall|i: int| 0 <= i < posts@.len() ==> (#[trigger] posts@[i]).wf(),
            entries@.map_values(|e: AtomEntry| e@) == entries_for(posts@, ord.take(k as int), base@, author@),
            forall|i: int| 0 <= i < entries@.len() ==> (#[trigger] entries@[i]).wf(),
            forall|i: int| 0 <= i < k ==> feed_converts(#[trigger] posts@[order@[i] as int]),
        decreases order@.len() - k,
    {
        let post = &posts[order[k]];
        assert(post.wf());
        let html = match checked_convert_md_to_html(post.content.as_str(), settings, Some(post.path.as_str())) {
            Some(h) => h,
            None => {
                proof {
                    let p = order@[k as int] as int;
                    assert(!feed_converts(posts@[p]));
                }
                return None;
            },
        };
        let mut idc: Vec<char> = chars_of(base);
        idc.push('/');
        push_str(&mut idc, post.url_path_encoded.as_str());
        let id = string_of(&idc);
        let mut links: Vec<AtomLink> = Vec::new();
        links.push(AtomLink { rel: String::from_str("alternate"), href: id.clone() });
        let summary = match &post.excerpt {
            Some(e) => e.clone(),
            None => String::new(),
        };
        let entry = AtomEntry {
            title: post.front_matter.title.clone(),
            id: id.clone(),
            updated: post.front_matter.date,
            authors: one_string(author),
            contributors: one_string(author),
            links,
            published: Some(post.front_matter.date),
            summary: Some(summary),
            rights: Some(String::from_str("CC-By Licence")),
            content: Some(AtomContent { value: html, content_type: String::from_str("html") }),
            source: Some(AtomSource { title: post.front_matter.title.clone(), id, updated: post.front_matter.date }),
        };
        proof {
            assert(links_view(entry.links@) =~= seq![AtomLinkView { rel: "alternate"@, href: idc@ }]);
            assert(idc@ == base@ + seq!['/'] + post.url_path_encoded@);
            assert(entry@.content == Some(AtomContentView { value: feed_html(*post), content_type: "html"@ }));
            assert(entry@.summary == Some(match post.excerpt { Some(e) => e@, None => Seq::<char>::empty() }));
            assert(entry@.title == post.front_matter.title@);
            assert(entry@.source == Some(AtomSourceView { title: post.front_matter.title@, id: idc@, updated: post.front_matter.date }));
            assert(entry@ == entry_for(*post, base@, author@));
            assert(ord.take(k + 1) =~= ord.take(k as int).push(order@[k as int] as int));
            assert(entries@.push(entry).map_values(|e: AtomEntry| e@) =~= entries@.map_values(|e: AtomEntry| e@).push(entry@));
            assert(entries_for(posts@, ord.take(k + 1), base@, author@) =~= entries_for(posts@, ord.take(k as int), base@, author@).push(entry_for(posts@[order@[k as int] as int], base@, author@)));
        }
        entries.push(entry);
        k = k + 1;
    }
    assert(ord.take(k as int) =~= ord);
    proof {
        assert forall|i: int| 0 <= i < posts@.len() implies feed_converts(#[trigger] posts@[i]) by {
            crate::sort::lemma_sort_same_elements(post_date_keys(posts@), all_positions(posts@.len()), false);
            assert(all_positions(posts@.len())[i] == i);
            assert(all_positions(posts@.len()).contains(i));
            assert(ord.contains(i));
            let j = choose|j: int| 0 <= j < ord.len() && ord[j] == i;
            assert(order@[j] as int == i);
        }
    }
    let mut links: Vec<AtomLink> = Vec::new();
    links.push(AtomLink { rel: String::from_str("alternate"), href: String::from_str(base) });
    links.push(AtomLink { rel: String::from_str("license"), href: String::from_str("https://creativecommons.org/licenses/by/4.0/") });
    let mut idc: Vec<char> = chars_of(base);
    idc.push('/');
    let feed = AtomFeed {
        links,
        authors: one_string(author),
        rights: Some(String::from_str("CC-By Licence")),
        base: Some(String::from_str(base)),
        lang: Some(String::from_str("fr-FR")),
        id: string_of(&idc),
        title: String::from_str(title),
        updated,
        entries,
    };
    assert(links_view(feed.links@) =~= seq![
        AtomLinkView { rel: "alternate"@, href: base@ },
        AtomLinkView { rel: "license"@, href: license_url() },
    ]);
    assert(feed@.entries == entries_for(posts@, sort_by_key(post_date_keys(posts@), all_positions(posts@.len()), false), base@, author@));
    assert(feed@.id == base@ + seq!['/']);
    assert(feed@.authors == seq![author@]);
    assert(feed.wf());
    assert(feed@ == feed_for(posts@, base@, author@, title@, updated));
    Some(feed)
}

/// The Atom feed of the posts, as XML: oldest first, updated at the newest
/// post's date (at the time of the call when there is no post).
pub fn write_atom_for_posts(
    posts: &[Post],
    base: &str,
    author: &str,
    title: &str,
    settings: &Settings,
) -> (r: Result<Vec<u8>, AtomFeedError>)
    requires
        forall|i: int| 0 <= i < posts@.len() ==> (#[trigger] posts@[i]).wf(),
    ensures
        (r matches Err(AtomFeedError::TooManyHeadings)) <==> !(forall|i: int| 0 <= i < posts@.len() ==> feed_converts(#[trigger] posts@[i])),
        r is Ok <==> (forall|i: int| 0 <= i < posts@.len() ==> feed_converts(#[trigger] posts@[i])),
        r matches Ok(bytes) ==> exists|updated: PostDate| {
            &&& posts@.len() > 0 ==> updated == newest_date(posts@)
            &&& bytes@ == atom_xml(feed_for(posts@, base@, author@, title@, updated))
        },
{
    let order = positions_by_date(posts, false);
    let updated = if order.len() > 0 {
        let last = order[order.len() - 1];
        assert(posts@[last as int].wf());
        posts[last].front_matter.date
    } else {
        now_date()
    };
    proof {
        if posts@.len() > 0 {
            crate::sort::lemma_sort_same_elements(post_date_keys(posts@), all_positions(posts@.len()), false);
            assert(order@.len() > 0);
        }
    }
    let feed = match atom_feed_for_posts(posts, base, author, title, updated, settings) {
        Some(f) => f,
        None => return Err(AtomFeedError::TooManyHeadings),
    };
    match feed_to_xml(&feed) {
        Ok(bytes) => Ok(bytes),
        Err(e) => Err(AtomFeedError::Atom(e)),
    }
}

} // verus!
