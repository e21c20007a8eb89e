//! The sitemap: every post and page, oldest first, with its URL and its date.
use vstd::prelude::*;
use xml::writer::{EmitterConfig, EventWriter, XmlEvent};
use xml::writer::Error as XmlError;
use crate::post::Post;
use crate::content::string_views;
use crate::text::{chars_of, string_of, push_str};
use crate::sort::{sort_by_key, sort_positions};
use crate::content::{date_key, post_date_keys};

verus! {

#[verifier::external_type_specification]
#[verifier::external_body]
#[verifier::reject_recursive_types(W)]
pub struct ExEventWriter<W>(EventWriter<W>);

#[verifier::external_type_specification]
#[verifier::external_body]
pub struct ExXmlError(XmlError);

/// An XML event, as the sitemap writes them.
pub enum XmlItem {
    /// An element start, with at most one attribute.
    Start(Seq<char>, Option<(Seq<char>, Seq<char>)>),
    /// Text.
    Characters(Seq<char>),
    /// The end of the last open element.
    End,
}

/// An XML event to write: an element start with at most one attribute, text,
/// or the end of the last open element.
pub enum XmlWrite<'a> {
    Start(&'a str, Option<(&'a str, &'a str)>),
    Characters(&'a str),
    End,
}

impl<'a> XmlWrite<'a> {
    pub open spec fn item(&self) -> XmlItem {
        match *self {
            XmlWrite::Start(name, attr) => XmlItem::Start(
                name@,
                match attr {
                    Some(a) => Some((a.0@, a.1@)),
                    None => None,
                },
            ),
            XmlWrite::Characters(t) => XmlItem::Characters(t@),
            XmlWrite::End => XmlItem::End,
        }
    }
}

/// The events written so far to an `xml` writer.
pub uninterp spec fn xml_written(w: EventWriter<Vec<u8>>) -> Seq<XmlItem>;

/// Whether every write to an `xml` writer so far succeeded.
pub uninterp spec fn xml_intact(w: EventWriter<Vec<u8>>) -> bool;

/// The bytes that an `xml` `EventWriter` with `perform_indent(true)` writes
/// into a buffer for these events.
pub uninterp spec fn xml_bytes(events: Seq<XmlItem>) -> Seq<u8>;

/// `EmitterConfig::new().perform_indent(true).create_writer(Vec::new())`: a
/// writer with nothing written.
#[verifier::external_body]
fn xml_writer() -> (r: EventWriter<Vec<u8>>)
    ensures
        xml_written(r) == Seq::<XmlItem>::empty(),
        xml_intact(r),
{
    EmitterConfig::new().perform_indent(true).create_writer(Vec::new())
}

/// How many elements are open after these events: starts less ends.
pub open spec fn open_elements(items: Seq<XmlItem>) -> int
    decreases items.len(),
{
    if items.len() == 0 {
        0
    } else {
        open_elements(items.drop_last()) + match items.last() {
            XmlItem::Start(_, _) => 1int,
            XmlItem::End => -1int,
            XmlItem::Characters(_) => 0int,
        }
    }
}

/// `EventWriter::write` of an event; after a failure the writer is no longer
/// intact, and what it holds is left unsaid. Writing into a `Vec<u8>` does
/// not fail, and the emitter (which keeps the stack of open element names)
/// refuses only an end with no element open: so on an intact writer a start,
/// a text, or an end with an element open is written.
#[verifier::external_body]
fn xml_write(w: &mut EventWriter<Vec<u8>>, e: XmlWrite) -> (r: Result<(), XmlError>)
    ensures
        r is Ok ==> xml_written(*final(w)) == xml_written(*old(w)).push(e.item())
            && xml_intact(*final(w)) == xml_intact(*old(w)),
        r is Err ==> !xml_intact(*final(w)),
        xml_intact(*old(w)) && (!(e.item() is End) || open_elements(xml_written(*old(w))) > 0) ==> r is Ok,
{
    let event: XmlEvent = match e {
        XmlWrite::Start(name, None) => XmlEvent::start_element(name).into(),
        XmlWrite::Start(name, Some((k, v))) => XmlEvent::start_element(name).attr(k, v).into(),
        XmlWrite::Characters(t) => XmlEvent::Characters(t),
        XmlWrite::End => XmlEvent::end_element().into(),
    };
    w.write(event)
}

/// `EventWriter::into_inner` of an intact writer: the bytes of the events
/// written.
#[verifier::external_body]
fn xml_into_bytes(w: EventWriter<Vec<u8>>) -> (r: Vec<u8>)
    requires
        xml_intact(w),
    ensures
        r@ == xml_bytes(xml_written(w)),
{
    w.into_inner()
}

/// The sitemap's namespace.
pub open spec fn sitemap_namespace() -> Seq<char> {
    "http://www.sitemaps.org/schemas/sitemap/0.9"@
}

/// The URL of a post in the sitemap: the base, `/`, and the post's URL path
/// (nothing for `/`, to avoid `//`).
pub open spec fn sitemap_url(base: Seq<char>, url_path: Seq<char>) -> Seq<char> {
    base + seq!['/'] + if url_path == seq!['/'] { Seq::<char>::empty() } else { url_path }
}

/// The events of one `url` entry.
pub open spec fn url_entry(base: Seq<char>, post: Post) -> Seq<XmlItem> {
    seq![
        XmlItem::Start("url"@, None),
        XmlItem::Start("loc"@, None),
        XmlItem::Characters(sitemap_url(base, post.url_path@)),
        XmlItem::End,
        XmlItem::Start("lastmod"@, None),
        XmlItem::Characters(post.date_rfc3339@),
        XmlItem::End,
        XmlItem::End,
    ]
}

/// The entries of the posts at these positions, in order.
pub open spec fn url_entries(base: Seq<char>, posts: Seq<Post>, order: Seq<int>) -> Seq<XmlItem>
    decreases order.len(),
{
    if order.len() == 0 {
        Seq::empty()
    } else {
        url_entries(base, posts, order.drop_last()) + url_entry(base, posts[order.last()])
    }
}

/// The positions of posts, in order.
pub open spec fn all_positions(n: nat) -> Seq<int> {
    Seq::new(n, |i: int| i)
}

/// The events of the sitemap: a `urlset` with an entry per post, oldest
/// first (posts with the same date in their order).
pub open spec fn sitemap_events(posts: Seq<Post>, base: Seq<char>) -> Seq<XmlItem> {
    seq![XmlItem::Start("urlset"@, Some(("xmlns"@, sitemap_namespace())))]
        + url_entries(base, posts, sort_by_key(post_date_keys(posts), all_positions(posts.len()), false))
        + seq![XmlItem::End]
}

proof fn lemma_open_add(a: Seq<XmlItem>, b: Seq<XmlItem>)
    ensures
        open_elements(a + b) == open_elements(a) + open_elements(b),
    decreases b.len(),
{
    if b.len() > 0 {
        lemma_open_add(a, b.drop_last());
        assert((a + b).drop_last() =~= a + b.drop_last());
        assert((a + b).last() == b.last());
    }
}

/// How many elements are open within an entry: two after its text and
/// after its date, none at its end.
proof fn lemma_entry_opens(base: Seq<char>, post: Post)
    ensures
        open_elements(url_entry(base, post).take(3)) == 2,
        open_elements(url_entry(base, post).take(6)) == 2,
        open_elements(url_entry(base, post)) == 0,
{
    let e = url_entry(base, post);
    reveal_with_fuel(open_elements, 9);
    assert(e.drop_last() =~= e.take(7));
    assert(e.take(7).drop_last() =~= e.take(6));
    assert(e.take(6).drop_last() =~= e.take(5));
    assert(e.take(5).drop_last() =~= e.take(4));
    assert(e.take(4).drop_last() =~= e.take(3));
    assert(e.take(3).drop_last() =~= e.take(2));
    assert(e.take(2).drop_last() =~= e.take(1));
    assert(e.take(1).drop_last() =~= Seq::<XmlItem>::empty());
}

/// The sitemap's head and entries leave the `urlset` open.
proof fn lemma_head_open(base: Seq<char>, posts: Seq<Post>, order: Seq<int>)
    ensures
        open_elements(seq![XmlItem::Start("urlset"@, Some(("xmlns"@, sitemap_namespace())))]
            + url_entries(base, posts, order)) == 1,
{
    let head = seq![XmlItem::Start("urlset"@, Some(("xmlns"@, sitemap_namespace())))];
    lemma_entries_closed(base, posts, order);
    lemma_open_add(head, url_entries(base, posts, order));
    reveal_with_fuel(open_elements, 2);
    assert(head.drop_last() =~= Seq::<XmlItem>::empty());
}

/// The entries leave no element open.
proof fn lemma_entries_closed(base: Seq<char>, posts: Seq<Post>, order: Seq<int>)
    ensures
        open_elements(url_entries(base, posts, order)) == 0,
    decreases order.len(),
{
    if order.len() > 0 {
        lemma_entries_closed(base, posts, order.drop_last());
        let e = url_entry(base, posts[order.last()]);
        lemma_open_add(url_entries(base, posts, order.drop_last()), e);
        lemma_entry_opens(base, posts[order.last()]);
    }
}

/// Something the XML writer refused.
#[derive(Debug)]
pub struct SitemapError {
    pub error: XmlError,
}

/// The sitemap lists every post once, oldest first.
pub proof fn law_sitemap_oldest_first(posts: Seq<Post>)
    ensures
        ({
            let order = sort_by_key(post_date_keys(posts), all_positions(posts.len()), false);
            &&& crate::sort::sorted_by_key(post_date_keys(posts), order, false)
            &&& order.to_multiset() == all_positions(posts.len()).to_multiset()
        }),
{
    crate::sort::lemma_sort_by_key(post_date_keys(posts), all_positions(posts.len()), false);
}

/// The positions of posts sorted by date, oldest first.
pub(crate) fn positions_by_date(posts: &[Post], descending: bool) -> (r: Vec<usize>)
    ensures
        r@.map_values(|i: usize| i as int) == sort_by_key(post_date_keys(posts@), all_positions(posts@.len()), descending),
        forall|i: int| 0 <= i < r@.len() ==> #[trigger] r@[i] < posts@.len(),
{
    let mut keys: Vec<i128> = Vec::new();
    let mut all: Vec<usize> = Vec::new();
    let mut i: usize = 0;
    while i < posts.len()
        invariant
            i <= posts@.len(),
            keys@.map_values(|k: i128| k as int) == post_date_keys(posts@).take(i as int),
            keys@.len() == i,
            all@.map_values(|k: usize| k as int) == all_positions(i as nat),
            forall|k: int| 0 <= k < all@.len() ==> #[trigger] all@[k] < i,
        decreases posts@.len() - i,
    {
        keys.push(date_key(&posts[i].front_matter.date));
        let ghost a0 = all@;
        all.push(i);
        assert(all@.map_values(|k: usize| k as int) =~= a0.map_values(|k: usize| k as int).push(i as int));
        assert(all_positions((i + 1) as nat) =~= all_positions(i as nat).push(i as int));
        i = i + 1;
        assert(keys@.map_values(|k: i128| k as int) =~= post_date_keys(posts@).take(i as int));
        assert(all@.map_values(|k: usize| k as int) =~= all_positions(i as nat));
    }
    assert(post_date_keys(posts@).take(i as int) =~= post_date_keys(posts@));
    sort_positions(&keys, &all, descending)
}

/// The sitemap of posts and pages, as XML: a `urlset` with, for each post
/// oldest first, its URL (the base, `/`, and its URL path) and its date.
pub fn write_sitemap_for_posts(posts: &[Post], base: &str) -> (r: Result<Vec<u8>, SitemapError>)
    ensures
        r matches Ok(bytes) && bytes@ == xml_bytes(sitemap_events(posts@, base@)),
{
    let mut writer = xml_writer();
    xml_write(&mut writer, XmlWrite::Start("urlset", Some(("xmlns", "http://www.sitemaps.org/schemas/sitemap/0.9"))))
        .map_err(|e| SitemapError { error: e })?;
    let order = positions_by_date(posts, false);
    let ghost ord = order@.map_values(|i: usize| i as int);
    let ghost head = seq![XmlItem::Start("urlset"@, Some(("xmlns"@, sitemap_namespace())))];
    let mut k: usize = 0;
    while k < order.len()
        invariant
            k <= order@.len(),
            ord == order@.map_values(|i: usize| i as int),
            forall|i: int| 0 <= i < order@.len() ==> #[trigger] order@[i] < posts@.len(),
            xml_written(writer) == head + url_entries(base@, posts@, ord.take(k as int)),
            xml_intact(writer),
            head == seq![XmlItem::Start("urlset"@, Some(("xmlns"@, sitemap_namespace())))],
        decreases order@.len() - k,
    {
        let ghost w0 = xml_written(writer);
        proof {
            lemma_head_open(base@, posts@, ord.take(k as int));
        }
        let post = &posts[order[k]];
        xml_write(&mut writer, XmlWrite::Start("url", None)).map_err(|e| SitemapError { error: e })?;
        // <loc>
        xml_write(&mut writer, XmlWrite::Start("loc", None)).map_err(|e| SitemapError { error: e })?;
        // Avoid //
        let mut url: Vec<char> = chars_of(base);
        url.push('/');
        let up = chars_of(post.url_path.as_str());
        let is_root = up.len() == 1 && up[0] == '/';
        assert(is_root == (up@ == seq!['/'])) by {
            if up@.len() == 1 && up@[0] == '/' {
                assert(up@ =~= seq!['/']);
            }
        }
        if !is_root {
            push_str(&mut url, post.url_path.as_str());
        }
        assert(url@ =~= sitemap_url(base@, post.url_path@));
        let url_s = string_of(&url);
        xml_write(&mut writer, XmlWrite::Characters(url_s.as_str())).map_err(|e| SitemapError { error: e })?;
        proof {
            let e = url_entry(base@, posts@[order@[k as int] as int]);
            assert(xml_written(writer) =~= w0 + e.take(3));
            lemma_open_add(w0, e.take(3));
            lemma_entry_opens(base@, posts@[order@[k as int] as int]);
        }
        xml_write(&mut writer, XmlWrite::End).map_err(|e| SitemapError { error: e })?;
        // <lastmod>
        xml_write(&mut writer, XmlWrite::Start("lastmod", None)).map_err(|e| SitemapError { error: e })?;
        xml_write(&mut writer, XmlWrite::Characters(post.date_rfc3339.as_str())).map_err(|e| SitemapError { error: e })?;
        proof {
            let e = url_entry(base@, posts@[order@[k as int] as int]);
            assert(xml_written(writer) =~= w0 + e.take(6));
            lemma_open_add(w0, e.take(6));
            lemma_entry_opens(base@, posts@[order@[k as int] as int]);
        }
        xml_write(&mut writer, XmlWrite::End).map_err(|e| SitemapError { error: e })?;
        proof {
            let e = url_entry(base@, posts@[order@[k as int] as int]);
            assert(xml_written(writer) =~= (w0 + e.take(6)).push(XmlItem::End));
            assert((w0 + e.take(6)).push(XmlItem::End).drop_last() =~= w0 + e.take(6));
            assert(open_elements(xml_written(writer)) == 2);
        }
        xml_write(&mut writer, XmlWrite::End).map_err(|e| SitemapError { error: e })?;
        proof {
            assert(ord.take(k + 1).drop_last() =~= ord.take(k as int));
            assert(ord.take(k + 1).last() == order@[k as int] as int);
        }
        assert(xml_written(writer) =~= head + url_entries(base@, posts@, ord.take(k + 1)));
        k = k + 1;
    }
    proof {
        lemma_head_open(base@, posts@, ord.take(k as int));
    }
    xml_write(&mut writer, XmlWrite::End).map_err(|e| SitemapError { error: e })?;
    assert(ord.take(k as int) =~= ord);
    assert(xml_written(writer) =~= sitemap_events(posts@, base@));
    Ok(xml_into_bytes(writer))
}

} // verus!
