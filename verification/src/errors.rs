//! The library's error type.
use vstd::prelude::*;
use crate::content::string_views;
use crate::text::{push_str, string_of};
use vstd::string::StringExecFns;

verus! {

/// `std::io::Error`.
#[verifier::external_type_specification]
#[verifier::external_body]
pub struct ExIoError(std::io::Error);

/// `syntect::LoadingError`, an error in loading syntaxes or themes.
#[verifier::external_type_specification]
#[verifier::external_body]
pub struct ExLoadingError(syntect::LoadingError);

/// What went wrong.
#[derive(Debug)]
pub enum ErrorKind {
    Msg(String),
    Tera(tera::Error),
    Io(std::io::Error),
    Syntect(syntect::LoadingError),
}

/// An error of the site generator, with the error that caused it, if any.
#[derive(Debug)]
pub struct SiteError {
    /// Kind of error
    pub kind: ErrorKind,
    pub source: Option<Box<SiteError>>,
}

/// What `format!("{:?}", v)` writes for a list of strings.
pub uninterp spec fn debug_strings(v: Seq<Seq<char>>) -> Seq<char>;

/// `format!("{:?}", v)` on a list of strings: each string quoted, with its
/// special characters escaped, in square brackets and separated by commas.
#[verifier::external_body]
fn debug_text(v: &Vec<String>) -> (r: String)
    ensures
        r@ == debug_strings(string_views(v@)),
{
    format!("{:?}", v)
}

/// `ToString::to_string` of a `tera::Error`. An input/output error inside
/// it is written with the system's message, so nothing is said of the text.
#[verifier::external_body]
fn tera_text(e: &tera::Error) -> String {
    e.to_string()
}

/// `ToString::to_string` of a `std::io::Error`. For an error of the
/// operating system the text is the system's, so nothing is said of it.
#[verifier::external_body]
fn io_text(e: &std::io::Error) -> String {
    e.to_string()
}

/// `ToString::to_string` of a `syntect::LoadingError`. The text can hold
/// that of an error of the operating system, so nothing is said of it.
#[verifier::external_body]
fn loading_text(e: &syntect::LoadingError) -> String {
    e.to_string()
}

/// The line that reports one collision.
pub open spec fn collision_row(path: Seq<char>, files: Seq<Seq<char>>) -> Seq<char> {
    "- `"@ + path + "` from files "@ + debug_strings(files) + "\n"@
}

/// The lines that report collisions, in order.
pub open spec fn collision_rows(c: Seq<(Seq<char>, Seq<Seq<char>>)>) -> Seq<char>
    decreases c.len(),
{
    if c.len() == 0 {
        Seq::empty()
    } else {
        collision_rows(c.drop_last()) + collision_row(c.last().0, c.last().1)
    }
}

/// The message that reports path collisions.
pub open spec fn collisions_message(c: Seq<(Seq<char>, Seq<Seq<char>>)>) -> Seq<char> {
    "Found path collisions:\n"@ + collision_rows(c)
}

pub open spec fn collision_views(v: Seq<(String, Vec<String>)>) -> Seq<(Seq<char>, Seq<Seq<char>>)> {
    v.map_values(|p: (String, Vec<String>)| (p.0@, string_views(p.1@)))
}

impl SiteError {
    /// Creates generic error
    pub fn msg(value: &str) -> (r: Self)
        ensures
            r.kind matches ErrorKind::Msg(m) && m@ == value@,
            r.source is None,
    {
        Self { kind: ErrorKind::Msg(String::from_str(value)), source: None }
    }

    /// Creates generic error with a cause
    pub fn chain(value: &str, source: SiteError) -> (r: Self)
        ensures
            r.kind matches ErrorKind::Msg(m) && m@ == value@,
            r.source == Some(Box::new(source)),
    {
        Self { kind: ErrorKind::Msg(String::from_str(value)), source: Some(Box::new(source)) }
    }

    /// Create an error from a list of path collisions, formatting the output
    pub fn from_collisions(collisions: Vec<(String, Vec<String>)>) -> (r: Self)
        ensures
            r.kind matches ErrorKind::Msg(m) && m@ == collisions_message(collision_views(collisions@)),
            r.source is None,
    {
        let ghost views = collision_views(collisions@);
        let mut out: Vec<char> = Vec::new();
        push_str(&mut out, "Found path collisions:\n");
        let mut i: usize = 0;
        while i < collisions.len()
            invariant
                i <= collisions.len(),
                views == collision_views(collisions@),
                out@ == collisions_message(views.take(i as int)),
            decreases collisions.len() - i,
        {
            let path = &collisions[i].0;
            let files = &collisions[i].1;
            push_str(&mut out, "- `");
            push_str(&mut out, path.as_str());
            push_str(&mut out, "` from files ");
            let listed = debug_text(files);
            push_str(&mut out, listed.as_str());
            push_str(&mut out, "\n");
            proof {
                let t = views.take(i + 1);
                assert(t.drop_last() =~= views.take(i as int));
                assert(t.last() == views[i as int]);
            }
            i = i + 1;
        }
        proof {
            assert(views.take(collisions.len() as int) =~= views);
        }
        Self { kind: ErrorKind::Msg(string_of(out.as_slice())), source: None }
    }

    /// The error as text: the message of a `Msg` error, else the text of the
    /// error it holds.
    pub fn to_text(&self) -> (r: String)
        ensures
            self.kind matches ErrorKind::Msg(m) ==> r@ == m@,
    {
        match &self.kind {
            ErrorKind::Msg(m) => m.clone(),
            ErrorKind::Tera(e) => tera_text(e),
            ErrorKind::Io(e) => io_text(e),
            ErrorKind::Syntect(e) => loading_text(e),
        }
    }

    /// The message of a `Msg` error; `None` for an error of another kind.
    pub fn message(&self) -> (r: Option<String>)
        ensures
            match self.kind {
                ErrorKind::Msg(m) => r == Some(m),
                _ => r is None,
            },
    {
        match &self.kind {
            ErrorKind::Msg(m) => Some(m.clone()),
            _ => None,
        }
    }
}

impl From<String> for SiteError {
    fn from(e: String) -> (r: Self) {
        Self { kind: ErrorKind::Msg(e), source: None }
    }
}

impl vstd::std_specs::convert::FromSpecImpl<String> for SiteError {
    open spec fn obeys_from_spec() -> bool {
        true
    }

    open spec fn from_spec(e: String) -> Self {
        SiteError { kind: ErrorKind::Msg(e), source: None }
    }
}

impl From<tera::Error> for SiteError {
    fn from(e: tera::Error) -> (r: Self) {
        Self { kind: ErrorKind::Tera(e), source: None }
    }
}

impl vstd::std_specs::convert::FromSpecImpl<tera::Error> for SiteError {
    open spec fn obeys_from_spec() -> bool {
        true
    }

    open spec fn from_spec(e: tera::Error) -> Self {
        SiteError { kind: ErrorKind::Tera(e), source: None }
    }
}

impl From<std::io::Error> for SiteError {
    fn from(e: std::io::Error) -> (r: Self) {
        Self { kind: ErrorKind::Io(e), source: None }
    }
}

impl vstd::std_specs::convert::FromSpecImpl<std::io::Error> for SiteError {
    open spec fn obeys_from_spec() -> bool {
        true
    }

    open spec fn from_spec(e: std::io::Error) -> Self {
        SiteError { kind: ErrorKind::Io(e), source: None }
    }
}

impl From<syntect::LoadingError> for SiteError {
    fn from(e: syntect::LoadingError) -> (r: Self) {
        Self { kind: ErrorKind::Syntect(e), source: None }
    }
}

impl vstd::std_specs::convert::FromSpecImpl<syntect::LoadingError> for SiteError {
    open spec fn obeys_from_spec() -> bool {
        true
    }

    open spec fn from_spec(e: syntect::LoadingError) -> Self {
        SiteError { kind: ErrorKind::Syntect(e), source: None }
    }
}

} // verus!
