//! The front matter's `tags` field: comma-separated tags.
use vstd::prelude::*;
use crate::post::{strings_view, opt_strings_view, tags_of};
use crate::slugify::to_lowercase;
use crate::text::{chars_of, string_of, trim_chars, split_chars, join_with, join_strings, split_on, trim};
use crate::slugify::lowercase;

verus! {

/// Writes tags joined by `,`, or an empty string when there are none.
pub fn serialize(tags: &Option<Vec<String>>) -> (r: String)
    ensures
        match tags {
            Some(t) => r@ == join_with(strings_view(t@), ","@),
            None => r@ == Seq::<char>::empty(),
        },
{
    match tags {
        Some(t) => join_strings(t.as_slice(), ","),
        None => String::new(),
    }
}

/// Reads a `tags` field: when it is a string, the comma-separated pieces,
/// each trimmed and in lower case; otherwise no tags.
pub fn deserialize(s: Option<&str>) -> (r: Option<Vec<String>>)
    ensures
        match s {
            Some(t) => opt_strings_view(r) == Some(tags_of(t@)),
            None => r is None,
        },
{
    match s {
        Some(content) => {
            let cs = chars_of(content);
            let pieces = split_chars(&cs, ',');
            let ghost ps = split_on(cs@, ',');
            let mut tags: Vec<String> = Vec::new();
            let mut i: usize = 0;
            while i < pieces.len()
                invariant
                    i <= pieces@.len(),
                    ps == split_on(content@, ','),
                    pieces@.len() == ps.len(),
                    forall|k: int| 0 <= k < pieces@.len() ==> (#[trigger] pieces@[k])@ == ps[k],
                    strings_view(tags@) == ps.take(i as int).map_values(|p: Seq<char>| lowercase(trim(p))),
                decreases pieces@.len() - i,
            {
                let t = trim_chars(&pieces[i]);
                let ts = string_of(&t);
                let low = to_lowercase(ts.as_str());
                proof {
                    assert(strings_view(tags@.push(low)) =~= strings_view(tags@).push(low@));
                    assert(ps.take(i + 1).map_values(|p: Seq<char>| lowercase(trim(p))) =~= ps.take(i as int).map_values(|p: Seq<char>| lowercase(trim(p))).push(lowercase(trim(ps[i as int]))));
                }
                tags.push(low);
                i = i + 1;
            }
            assert(ps.take(i as int) =~= ps);
            Some(tags)
        },
        None => None,
    }
}

} // verus!
