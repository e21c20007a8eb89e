//! The front matter's optional `updated_at` field: `%Y-%m-%d %H:%M:%S%z`.
use vstd::prelude::*;
use crate::post::{PostDate, parsed_date, formatted_date, parse_date, date_to_text};
use crate::post::custom_date_format::DateError;

verus! {

/// Writes an optional date as `%Y-%m-%d %H:%M:%S%z`, or as an empty string.
pub fn serialize(date: &Option<PostDate>) -> (r: String)
    requires
        date matches Some(d) ==> d.valid(),
    ensures
        match date {
            Some(d) => r@ == formatted_date(*d),
            None => r@ == Seq::<char>::empty(),
        },
{
    match date {
        Some(d) => date_to_text(d),
        None => String::new(),
    }
}

/// Reads a given date field: a date that parses, or an error.
pub fn deserialize(s: &str) -> (r: Result<Option<PostDate>, DateError>)
    ensures
        match r {
            Ok(Some(d)) => parsed_date(s@) == Some(d) && d.valid(),
            Ok(None) => false,
            Err(_) => parsed_date(s@) is None,
        },
{
    match parse_date(s) {
        Some(d) => Ok(Some(d)),
        None => Err(DateError),
    }
}

} // verus!
