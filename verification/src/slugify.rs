//! Anchors for headings, in the manner of GitHub: lower case, spaces become
//! dashes, punctuation goes, and a repeated anchor gets a counter suffix.
use vstd::prelude::*;
use crate::text::{chars_of, string_of, push_decimal, decimal};
use vstd::string::StringExecFns;

verus! {

/// What `str::to_lowercase` returns (Unicode lower case mapping of every
/// character, with the context rule for the final sigma).
pub uninterp spec fn lowercase(s: Seq<char>) -> Seq<char>;

/// Whether a non-ASCII character is a word character (`\w`) for the `regex`
/// crate in its default Unicode mode.
pub uninterp spec fn regex_word_char(c: char) -> bool;

/// An ASCII word character: a letter, a digit or `_`.
pub open spec fn is_ascii_word(c: char) -> bool {
    ('a' <= c && c <= 'z') || ('A' <= c && c <= 'Z') || ('0' <= c && c <= '9') || c == '_'
}

/// Whether the anchor pattern `[^\w\- ]` leaves a character in place.
pub open spec fn kept_in_anchor(c: char) -> bool {
    if (c as u32) < 0x80 {
        is_ascii_word(c) || c == '-' || c == ' '
    } else {
        regex_word_char(c)
    }
}

/// `str::to_lowercase`.
#[verifier::external_body]
pub(crate) fn to_lowercase(s: &str) -> (r: String)
    ensures
        r@ == lowercase(s@),
{
    s.to_lowercase()
}

/// `regex::Regex::replace_all` with the pattern `[^\w\- ]` and an empty
/// replacement: every character that is not a word character, `-` or a space
/// is removed. Word characters of ASCII are `[0-9A-Za-z_]`; which non-ASCII
/// characters are word characters is left to the name `regex_word_char`.
#[verifier::external_body]
pub(crate) fn remove_non_anchor_chars(s: &str) -> (r: String)
    ensures
        r@ == s@.filter(
            |c: char|
                if (c as u32) < 0x80 {
                    is_ascii_word(c) || c == '-' || c == ' '
                } else {
                    regex_word_char(c)
                },
        ),
{
    regex::Regex::new(r"[^\w\- ]").unwrap().replace_all(s, "").into_owned()
}

/// Every occurrence of one character replaced by another (`str::replace`
/// with a one-character pattern and replacement).
pub open spec fn replace_char(s: Seq<char>, from: char, to: char) -> Seq<char> {
    s.map_values(|c: char| if c == from { to } else { c })
}

/// `str::replace` with a one-character pattern and a one-character replacement.
pub fn replace_char_in(s: &[char], from: char, to: char) -> (r: Vec<char>)
    ensures
        r@ == replace_char(s@, from, to),
{
    let mut r: Vec<char> = Vec::new();
    let mut i: usize = 0;
    while i < s.len()
        invariant
            i <= s@.len(),
            r@ == replace_char(s@.take(i as int), from, to),
        decreases s@.len() - i,
    {
        if s[i] == from {
            r.push(to);
        } else {
            r.push(s[i]);
        }
        i = i + 1;
        assert(replace_char(s@.take(i as int), from, to) =~= replace_char(
            s@.take(i - 1),
            from,
            to,
        ).push(if s@[i - 1] == from { to } else { s@[i - 1] }));
    }
    assert(s@.take(i as int) =~= s@);
    r
}

/// The anchor of a heading before de-duplication: lower case, spaces turned
/// into `-`, then every character other than word characters and `-` removed.
pub open spec fn anchor_of(text: Seq<char>) -> Seq<char> {
    replace_char(lowercase(text), ' ', '-').filter(|c: char| kept_in_anchor(c))
}

/// The anchor given to a heading, and the new counts, when the counts of
/// anchors handed out so far are `seen`: the first use of an anchor gets it as
/// is; the n-th repeat gets `anchor-n`.
pub open spec fn next_anchor(seen: Map<Seq<char>, int>, text: Seq<char>) -> (Seq<char>, Map<Seq<char>, int>) {
    let a = anchor_of(text);
    if seen.contains_key(a) {
        let n = seen[a] + 1;
        (a + seq!['-'] + decimal(n as nat), seen.insert(a, n))
    } else {
        (a, seen.insert(a, 0))
    }
}

/// Slugifying the same heading text twice in a row gives two different
/// anchors: the second one always carries a counter suffix that the first
/// one does not have, or a larger one.
pub proof fn law_repeated_heading_gets_new_anchor(seen: Map<Seq<char>, int>, text: Seq<char>)
    requires
        forall|k: Seq<char>| #[trigger] seen.contains_key(k) ==> seen[k] >= 0,
    ensures
        next_anchor(seen, text).0 != next_anchor(next_anchor(seen, text).1, text).0,
{
    let a = anchor_of(text);
    let (r1, seen1) = next_anchor(seen, text);
    let (r2, _) = next_anchor(seen1, text);
    let p = a + seq!['-'];
    if seen.contains_key(a) {
        let n = seen[a] + 1;
        assert(r1 == p + decimal(n as nat));
        assert(r2 == p + decimal((n + 1) as nat));
        if r1 == r2 {
            assert(decimal(n as nat) =~= r1.skip(p.len() as int));
            assert(decimal((n + 1) as nat) =~= r2.skip(p.len() as int));
            crate::text::lemma_decimal_injective(n as nat, (n + 1) as nat);
        }
    } else {
        assert(r1 == a);
        assert(r2 == p + decimal(1));
        assert(r2.len() > r1.len());
    }
}

/// A slugifier that has handed out no anchor yet gives a heading its plain
/// anchor.
pub proof fn law_first_anchor_is_plain(text: Seq<char>)
    ensures
        next_anchor(Map::<Seq<char>, int>::empty(), text).0 == anchor_of(text),
{
}

proof fn lemma_filter_keeps_all(s: Seq<char>, keep: spec_fn(char) -> bool)
    requires
        forall|i: int| 0 <= i < s.len() ==> keep(#[trigger] s[i]),
    ensures
        s.filter(keep) == s,
    decreases s.len(),
{
    reveal(Seq::filter);
    if s.len() > 0 {
        lemma_filter_keeps_all(s.drop_last(), keep);
        assert(s.drop_last().push(s.last()) =~= s);
    }
}

/// A fresh anchor is already normalised: a slugifier that has handed out no
/// anchor yet gives an anchor back unchanged, wherever lower-casing leaves
/// the anchor as it is.
pub proof fn law_fresh_anchor_is_normalised(text: Seq<char>)
    requires
        lowercase(anchor_of(text)) == anchor_of(text),
    ensures
        next_anchor(Map::<Seq<char>, int>::empty(), anchor_of(text)).0 == anchor_of(text),
{
    let spaced = replace_char(lowercase(text), ' ', '-');
    let keep = |c: char| kept_in_anchor(c);
    let y = anchor_of(text);
    assert(y == spaced.filter(keep));
    assert forall|i: int| 0 <= i < y.len() implies #[trigger] y[i] != ' ' && keep(y[i]) by {
        spaced.lemma_filter_pred(keep, i);
        assert(y.contains(y[i]));
        spaced.lemma_filter_contains_rev(keep, y[i]);
        let j = choose|j: int| 0 <= j < spaced.len() && spaced[j] == y[i];
        assert(spaced[j] != ' ');
    }
    assert(replace_char(y, ' ', '-') =~= y);
    lemma_filter_keeps_all(y, keep);
}

/// The counts after anchors were handed out for these heading texts, in
/// order, starting from none.
pub open spec fn seen_after(texts: Seq<Seq<char>>) -> Map<Seq<char>, int>
    decreases texts.len(),
{
    if texts.len() == 0 {
        Map::empty()
    } else {
        next_anchor(seen_after(texts.drop_last()), texts.last()).1
    }
}

/// How many of these heading texts have the anchor `a`.
pub open spec fn anchor_count(texts: Seq<Seq<char>>, a: Seq<char>) -> nat
    decreases texts.len(),
{
    if texts.len() == 0 {
        0
    } else {
        anchor_count(texts.drop_last(), a) + if anchor_of(texts.last()) == a { 1nat } else { 0nat }
    }
}

proof fn lemma_seen_after(texts: Seq<Seq<char>>)
    ensures
        forall|a: Seq<char>| #[trigger] seen_after(texts).contains_key(a) <==> anchor_count(texts, a) > 0,
        forall|a: Seq<char>| #[trigger] seen_after(texts).contains_key(a) ==> seen_after(texts)[a] == anchor_count(texts, a) - 1,
    decreases texts.len(),
{
    if texts.len() > 0 {
        lemma_seen_after(texts.drop_last());
        let prev = seen_after(texts.drop_last());
        let x = anchor_of(texts.last());
        assert forall|a: Seq<char>| #[trigger] seen_after(texts).contains_key(a) <==> anchor_count(texts, a) > 0 by {
            assert(prev.contains_key(a) <==> anchor_count(texts.drop_last(), a) > 0);
        }
        assert forall|a: Seq<char>| #[trigger] seen_after(texts).contains_key(a) implies seen_after(texts)[a] == anchor_count(texts, a) - 1 by {
            assert(prev.contains_key(a) <==> anchor_count(texts.drop_last(), a) > 0);
        }
    }
}

/// After anchors were handed out for some heading texts, a heading gets its
/// plain anchor if no earlier heading had that anchor, and else the anchor
/// followed by `-` and the number of earlier headings that had it.
pub proof fn law_anchor_after_history(texts: Seq<Seq<char>>, text: Seq<char>)
    ensures
        ({
            let n = anchor_count(texts, anchor_of(text));
            next_anchor(seen_after(texts), text).0 == if n == 0 {
                anchor_of(text)
            } else {
                anchor_of(text) + seq!['-'] + crate::text::decimal(n)
            }
        }),
{
    lemma_seen_after(texts);
    let a = anchor_of(text);
    assert(seen_after(texts).contains_key(a) <==> anchor_count(texts, a) > 0);
}

/// A strategy to compute the anchor of a heading.
pub trait Slugify {
    /// Whether `slugify` can be called in this state.
    spec fn can_slugify(&self) -> bool;

    fn slugify(&mut self, str: String) -> String
        requires
            old(self).can_slugify(),
    ;
}

/// A slugifier that attempts to mimic GitHub's behavior.
///
/// Unfortunately GitHub's behavior is not documented anywhere by GitHub.
/// This should really be part of the GitHub Flavored Markdown Spec
/// but alas it's not.
pub struct GitHubSlugifier {
    counts: Vec<(String, i32)>,
}

impl GitHubSlugifier {
    /// Anchors handed out so far are distinct keys with non-negative counts.
    pub closed spec fn inv(&self) -> bool {
        &&& forall|i: int, j: int|
            0 <= i < self.counts@.len() && 0 <= j < self.counts@.len() && i != j
                ==> (#[trigger] self.counts@[i]).0@ != (#[trigger] self.counts@[j]).0@
        &&& forall|i: int| 0 <= i < self.counts@.len() ==> (#[trigger] self.counts@[i]).1 >= 0
    }

    /// For every anchor handed out so far, how many times it was repeated.
    pub closed spec fn seen(&self) -> Map<Seq<char>, int> {
        Map::new(
            |k: Seq<char>| exists|i: int| 0 <= i < self.counts@.len() && self.counts@[i].0@ == k,
            |k: Seq<char>|
                self.counts@[choose|i: int|
                    0 <= i < self.counts@.len() && self.counts@[i].0@ == k].1 as int,
        )
    }

    /// No count has reached `i32::MAX`, so another repeat can be counted.
    pub closed spec fn room(&self) -> bool {
        forall|i: int| 0 <= i < self.counts@.len() ==> (#[trigger] self.counts@[i]).1 < i32::MAX
    }

    /// All counts are at most `bound` and within the room left.
    pub proof fn lemma_room(&self, bound: int)
        requires
            self.inv(),
            bound < i32::MAX,
            forall|k: Seq<char>| #[trigger] self.seen().contains_key(k) ==> self.seen()[k] <= bound,
        ensures
            self.room(),
    {
        assert forall|i: int| 0 <= i < self.counts@.len() implies (#[trigger] self.counts@[i]).1
            < i32::MAX by {
            let k = self.counts@[i].0@;
            assert(self.seen().contains_key(k));
            let j = choose|j: int| 0 <= j < self.counts@.len() && self.counts@[j].0@ == k;
            assert(i == j);
        }
    }

    /// A slugifier that has handed out no anchor yet.
    pub fn new() -> (r: Self)
        ensures
            r.inv(),
            r.room(),
            r.seen() == Map::<Seq<char>, int>::empty(),
    {
        let r = GitHubSlugifier { counts: Vec::new() };
        assert(r.seen() =~= Map::<Seq<char>, int>::empty());
        r
    }

    /// Position of an anchor among those handed out.
    fn find(&self, anchor: &String) -> (r: Option<usize>)
        requires
            self.inv(),
        ensures
            match r {
                Some(i) => i < self.counts@.len() && self.counts@[i as int].0@ == anchor@,
                None => !self.seen().contains_key(anchor@),
            },
    {
        let mut i: usize = 0;
        while i < self.counts.len()
            invariant
                i <= self.counts@.len(),
                forall|j: int| 0 <= j < i ==> self.counts@[j].0@ != anchor@,
            decreases self.counts@.len() - i,
        {
            if self.counts[i].0 == *anchor {
                return Some(i);
            }
            i = i + 1;
        }
        None
    }
}

impl Default for GitHubSlugifier {
    fn default() -> (r: Self)
        ensures
            r.inv(),
            r.room(),
            r.seen() == Map::<Seq<char>, int>::empty(),
    {
        GitHubSlugifier::new()
    }
}

impl Slugify for GitHubSlugifier {
    open spec fn can_slugify(&self) -> bool {
        self.inv() && self.room()
    }

    /// The anchor of a heading text, counting repeats.
    fn slugify(&mut self, str: String) -> (r: String)
        ensures
            final(self).inv(),
            (r@, final(self).seen()) == next_anchor(old(self).seen(), str@),
    {
        let lower = to_lowercase(str.as_str());
        let lower_chars = chars_of(lower.as_str());
        let dashed_chars = replace_char_in(&lower_chars, ' ', '-');
        let dashed = string_of(&dashed_chars);
        let anchor = remove_non_anchor_chars(dashed.as_str());
        assert((|c: char| kept_in_anchor(c)) =~= (|c: char|
            if (c as u32) < 0x80 {
                is_ascii_word(c) || c == '-' || c == ' '
            } else {
                regex_word_char(c)
            }));
        assert(anchor@ == anchor_of(str@));
        let ghost old_seen = self.seen();
        match self.find(&anchor) {
            None => {
                let key = anchor.clone();
                self.counts.push((key, 0));
                proof {
                    assert(self.seen() =~= old_seen.insert(anchor@, 0)) by {
                        assert forall|k: Seq<char>| #[trigger] self.seen().contains_key(k)
                            <==> old_seen.insert(anchor@, 0).contains_key(k) by {
                            if old_seen.contains_key(k) {
                                let i = choose|i: int|
                                    0 <= i < old(self).counts@.len() && old(self).counts@[i].0@ == k;
                                assert(self.counts@[i] == old(self).counts@[i]);
                            }
                            if k == anchor@ {
                                assert(self.counts@[self.counts@.len() - 1].0@ == k);
                            }
                        }
                        assert forall|k: Seq<char>| #[trigger] self.seen().contains_key(k)
                            implies self.seen()[k] == old_seen.insert(anchor@, 0)[k] by {
                            let i = choose|i: int|
                                0 <= i < self.counts@.len() && self.counts@[i].0@ == k;
                            if k == anchor@ {
                                assert(i == self.counts@.len() - 1);
                            } else {
                                assert(old(self).counts@[i] == self.counts@[i]);
                                let j = choose|j: int|
                                    0 <= j < old(self).counts@.len() && old(self).counts@[j].0@ == k;
                                assert(i == j);
                            }
                        }
                    }
                }
                anchor
            },
            Some(i) => {
                let n = self.counts[i].1 + 1;
                proof {
                    let j = choose|j: int|
                        0 <= j < self.counts@.len() && self.counts@[j].0@ == anchor@;
                    assert(j == i);
                }
                let key = anchor.clone();
                self.counts.set(i, (key, n));
                proof {
                    assert(self.seen() =~= old_seen.insert(anchor@, n as int)) by {
                        assert forall|k: Seq<char>| #[trigger] self.seen().contains_key(k)
                            <==> old_seen.insert(anchor@, n as int).contains_key(k) by {
                            if old_seen.contains_key(k) {
                                let j = choose|j: int|
                                    0 <= j < old(self).counts@.len() && old(self).counts@[j].0@ == k;
                                assert(self.counts@[j].0@ == k);
                            }
                            if self.seen().contains_key(k) {
                                let j = choose|j: int|
                                    0 <= j < self.counts@.len() && self.counts@[j].0@ == k;
                                assert(old(self).counts@[j].0@ == k);
                            }
                        }
                        assert forall|k: Seq<char>| #[trigger] self.seen().contains_key(k)
                            implies self.seen()[k] == old_seen.insert(anchor@, n as int)[k] by {
                            let j = choose|j: int|
                                0 <= j < self.counts@.len() && self.counts@[j].0@ == k;
                            if k == anchor@ {
                                assert(j == i);
                            } else {
                                let j2 = choose|j2: int|
                                    0 <= j2 < old(self).counts@.len() && old(self).counts@[j2].0@ == k;
                                assert(old(self).counts@[j].0@ == k);
                                assert(j == j2);
                            }
                        }
                    }
                }
                let mut out: Vec<char> = chars_of(anchor.as_str());
                out.push('-');
                push_decimal(&mut out, n as u32);
                string_of(&out)
            },
        }
    }
}

} // verus!
