//! Posts: the front matter at the top of a Markdown file, and the post built
//! from it.
use vstd::prelude::*;
use crate::text::{chars_of, string_of, trim_chars, trim, split_on, split_chars, join_with, join_strings};
use crate::slugify::{lowercase, to_lowercase};

pub mod custom_date_format;
pub mod optional_custom_date_format;
pub mod parse_tags;

verus! {

/// The earliest instant chrono can hold, as a UNIX timestamp
/// (`DateTime::<Utc>::MIN_UTC`, January 1 of the year -262143).
pub const MIN_TIMESTAMP: i64 = -8334601228800i64;

/// The latest instant chrono can hold, as a UNIX timestamp
/// (`DateTime::<Utc>::MAX_UTC`, December 31 of the year 262142, 23:59:59).
pub const MAX_TIMESTAMP: i64 = 8210266876799i64;

/// A date with a fixed UTC offset, as chrono holds it.
#[derive(Clone, Copy, Debug, PartialEq, Eq)]
pub struct PostDate {
    /// Seconds since the UNIX epoch.
    pub timestamp: i64,
    /// Nanoseconds past that second; from one second on, a leap second.
    pub nanosecond: u32,
    /// Seconds east of UTC.
    pub offset: i32,
}

impl PostDate {
    /// A date that chrono can hold: the instant and the local time are in
    /// chrono's range, the offset is less than a day, and the nanoseconds are
    /// less than a second but in the last second of a minute, which can be a
    /// leap second.
    pub open spec fn valid(&self) -> bool {
        &&& MIN_TIMESTAMP <= self.timestamp <= MAX_TIMESTAMP
        &&& MIN_TIMESTAMP <= self.timestamp + self.offset <= MAX_TIMESTAMP
        &&& -86400 < self.offset < 86400
        &&& self.nanosecond < 1_000_000_000 || (self.nanosecond < 2_000_000_000 && self.timestamp % 60 == 59)
    }
}

/// What `DateTime::parse_from_str(s, "%Y-%m-%d %H:%M:%S%z")` gives, as the
/// timestamp and the offset in seconds, or `None` where it fails.
pub uninterp spec fn parsed_date(s: Seq<char>) -> Option<PostDate>;

/// What `DateTime::to_rfc3339` writes for a date.
pub uninterp spec fn rfc3339_text(date: PostDate) -> Seq<char>;

/// What `DateTime::format("%Y-%m-%d %H:%M:%S%z")` writes for a date.
pub uninterp spec fn formatted_date(date: PostDate) -> Seq<char>;

/// `chrono::DateTime::parse_from_str` with the front matter's format
/// `%Y-%m-%d %H:%M:%S%z`. A date that chrono returns is in chrono's range, its
/// offset is less than a day, and its nanoseconds pass a second only in the
/// last second of a minute (a leap second).
#[verifier::external_body]
pub(crate) fn parse_date(s: &str) -> (r: Option<PostDate>)
    ensures
        match r {
            Some(d) => parsed_date(s@) == Some(d) && d.valid(),
            None => parsed_date(s@) is None,
        },
{
    let d = chrono::DateTime::parse_from_str(s, "%Y-%m-%d %H:%M:%S%z").ok()?;
    Some(PostDate { timestamp: d.timestamp(), nanosecond: d.timestamp_subsec_nanos(), offset: d.offset().local_minus_utc() })
}

/// `chrono::DateTime::to_rfc3339` of a date.
#[verifier::external_body]
pub(crate) fn date_to_rfc3339(d: &PostDate) -> (r: String)
    requires
        d.valid(),
    ensures
        r@ == rfc3339_text(*d),
{
    let offset = chrono::FixedOffset::east_opt(d.offset).unwrap();
    chrono::DateTime::from_timestamp(d.timestamp, d.nanosecond).unwrap().with_timezone(&offset).to_rfc3339()
}

/// `chrono::DateTime::format` of a date with `%Y-%m-%d %H:%M:%S%z`.
#[verifier::external_body]
pub(crate) fn date_to_text(d: &PostDate) -> (r: String)
    requires
        d.valid(),
    ensures
        r@ == formatted_date(*d),
{
    let offset = chrono::FixedOffset::east_opt(d.offset).unwrap();
    let date = chrono::DateTime::from_timestamp(d.timestamp, d.nanosecond).unwrap().with_timezone(&offset);
    format!("{}", date.format("%Y-%m-%d %H:%M:%S%z"))
}

/// The status a post can have in its front matter.
#[derive(Clone, Copy, Debug, PartialEq, Eq)]
pub enum PostStatus {
    Draft,
}

/// The front matter as its fields are written in the YAML, before the dates,
/// the status and the tags are read.
#[derive(Debug)]
pub struct RawFrontMatter {
    pub title: String,
    pub slug: String,
    pub date: String,
    pub status: Option<String>,
    pub category: Option<String>,
    /// The `tags` field when it is a string.
    pub tags: Option<String>,
    pub updated_at: Option<String>,
    pub toc: Option<bool>,
}

/// The front matter of a post.
#[derive(Debug)]
pub struct FrontMatter {
    pub title: String,
    pub slug: String,
    pub date: PostDate,
    pub status: Option<PostStatus>,
    pub category: Option<String>,
    pub tags: Option<Vec<String>>,
    pub updated_at: Option<PostDate>,
    pub toc: Option<bool>,
}

pub open spec fn opt_view(s: Option<String>) -> Option<Seq<char>> {
    match s {
        Some(x) => Some(x@),
        None => None,
    }
}

pub open spec fn strings_view(v: Seq<String>) -> Seq<Seq<char>> {
    v.map_values(|s: String| s@)
}

pub open spec fn opt_strings_view(v: Option<Vec<String>>) -> Option<Seq<Seq<char>>> {
    match v {
        Some(x) => Some(strings_view(x@)),
        None => None,
    }
}

/// The tags of a `tags` field: the comma-separated pieces, trimmed and in
/// lower case.
pub open spec fn tags_of(s: Seq<char>) -> Seq<Seq<char>> {
    split_on(s, ',').map_values(|p: Seq<char>| lowercase(trim(p)))
}

/// The status written as `status`.
pub open spec fn status_of(s: Seq<char>) -> Option<PostStatus> {
    if s == "draft"@ {
        Some(PostStatus::Draft)
    } else {
        None
    }
}

impl FrontMatter {
    /// The dates are ones chrono can hold.
    pub open spec fn wf(&self) -> bool {
        &&& self.date.valid()
        &&& self.updated_at matches Some(d) ==> d.valid()
    }

    /// The front matter that a raw one reads as, if it reads: the date and
    /// the date of update (when given) parse, and the status (when given) is
    /// `draft`.
    pub open spec fn reads_as(raw: RawFrontMatter, fm: FrontMatter) -> bool {
        &&& parsed_date(raw.date@) == Some(fm.date)
        &&& fm.title@ == raw.title@
        &&& fm.slug@ == raw.slug@
        &&& fm.status == match raw.status {
            Some(s) => status_of(s@),
            None => None,
        }
        &&& opt_view(fm.category) == opt_view(raw.category)
        &&& opt_strings_view(fm.tags) == match raw.tags {
            Some(t) => Some(tags_of(t@)),
            None => None,
        }
        &&& match raw.updated_at {
            Some(u) => parsed_date(u@) == Some(fm.updated_at->0)
                && fm.updated_at is Some,
            None => fm.updated_at is None,
        }
        &&& fm.toc == raw.toc
    }

    /// Whether a raw front matter reads: its date parses, its date of update
    /// parses when given, and its status is `draft` when given.
    pub open spec fn raw_reads(raw: RawFrontMatter) -> bool {
        &&& parsed_date(raw.date@) is Some
        &&& raw.status matches Some(s) ==> status_of(s@) is Some
        &&& raw.updated_at matches Some(u) ==> parsed_date(u@) is Some
    }

    /// Reads a raw front matter: `None` where a date does not parse or the
    /// status is not `draft`.
    pub fn from_raw(raw: RawFrontMatter) -> (r: Option<FrontMatter>)
        ensures
            r is Some <==> Self::raw_reads(raw),
            r matches Some(fm) ==> Self::reads_as(raw, fm) && fm.wf(),
            r matches Some(fm) ==> opt_view(fm.category) == opt_view(raw.category),
    {
        let date = match custom_date_format::deserialize(raw.date.as_str()) {
            Ok(d) => d,
            Err(_) => return None,
        };
        let status = match &raw.status {
            Some(s) => {
                let cs = chars_of(s.as_str());
                let draft = chars_of("draft");
                if crate::text::chars_eq(&cs, &draft) {
                    Some(PostStatus::Draft)
                } else {
                    return None;
                }
            },
            None => None,
        };
        let updated_at = match &raw.updated_at {
            Some(u) => match optional_custom_date_format::deserialize(u.as_str()) {
                Ok(d) => d,
                Err(_) => return None,
            },
            None => None,
        };
        let tags = match &raw.tags {
            Some(t) => parse_tags::deserialize(Some(t.as_str())),
            None => None,
        };
        let RawFrontMatter { title, slug, date: _, status: _, category, tags: _, updated_at: _, toc } = raw;
        Some(FrontMatter { title, slug, date, status, category, tags, updated_at, toc })
    }
}

/// Reading a raw front matter keeps what is written in it as text: the front
/// matter read has the raw title, slug and category, and the raw
/// table-of-contents flag.
pub proof fn law_reading_keeps_written_fields(raw: RawFrontMatter, fm: FrontMatter)
    requires
        FrontMatter::reads_as(raw, fm),
    ensures
        fm.title@ == raw.title@,
        fm.slug@ == raw.slug@,
        opt_view(fm.category) == opt_view(raw.category),
        fm.toc == raw.toc,
{
}

/// A post, ready to be written out.
#[derive(Debug)]
pub struct Post {
    pub front_matter: FrontMatter,
    pub date_rfc3339: String,
    pub excerpt: Option<String>,
    pub content: String,
    pub path: String,
    pub url_path: String,
    pub url_path_encoded: String,
    pub ancestor_directories_paths: Vec<String>,
    pub ancestor_directories_names: Vec<String>,
}

impl Post {
    /// The post's dates are ones chrono can hold.
    pub open spec fn wf(&self) -> bool {
        self.front_matter.wf()
    }

    /// A post from its parts; `date_rfc3339` is the front matter's date in
    /// RFC 3339.
    pub fn new(
        front_matter: FrontMatter,
        excerpt: Option<String>,
        content: String,
        path: String,
        url_path: String,
        url_path_encoded: String,
        ancestor_directories_paths: Vec<String>,
        ancestor_directories_names: Vec<String>,
    ) -> (r: Self)
        requires
            front_matter.wf(),
        ensures
            r.front_matter == front_matter,
            r.date_rfc3339@ == rfc3339_text(front_matter.date),
            r.excerpt == excerpt,
            r.content == content,
            r.path == path,
            r.url_path == url_path,
            r.url_path_encoded == url_path_encoded,
            r.ancestor_directories_paths == ancestor_directories_paths,
            r.ancestor_directories_names == ancestor_directories_names,
            r.wf(),
    {
        let rfc_date = date_to_rfc3339(&front_matter.date);
        Post {
            content,
            front_matter,
            excerpt,
            path,
            url_path,
            url_path_encoded,
            date_rfc3339: rfc_date,
            ancestor_directories_paths,
            ancestor_directories_names,
        }
    }
}

} // verus!
