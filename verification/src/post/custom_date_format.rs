//! The front matter's `date` field: `%Y-%m-%d %H:%M:%S%z`.
use vstd::prelude::*;
use crate::post::{PostDate, parsed_date, formatted_date, parse_date, date_to_text};

verus! {

/// A date field that does not parse.
#[derive(Debug, Clone, Copy, PartialEq, Eq)]
pub struct DateError;

/// Writes a date as `%Y-%m-%d %H:%M:%S%z`.
pub fn serialize(date: &PostDate) -> (r: String)
    requires
        date.valid(),
    ensures
        r@ == formatted_date(*date),
{
    date_to_text(date)
}

/// Reads a date written as `%Y-%m-%d %H:%M:%S%z`.
pub fn deserialize(s: &str) -> (r: Result<PostDate, DateError>)
    ensures
        match r {
            Ok(d) => parsed_date(s@) == Some(d) && d.valid(),
            Err(_) => parsed_date(s@) is None,
        },
{
    match parse_date(s) {
        Some(d) => Ok(d),
        None => Err(DateError),
    }
}

} // verus!
