//! From parsed files to pages: where each post goes, which posts are
//! published, the tag and category indexes, and what each page shows.
use vstd::prelude::*;
use vstd::string::StringExecFns;
use vstd::string::StringSliceAdditionalSpecFns;
use crate::text::{chars_of, string_of, push_str, push_chars, split_on, split_chars, join_with, chars_eq};
use crate::post::{FrontMatter, RawFrontMatter, Post, PostStatus, opt_view};
use crate::config::Settings;
use crate::markdown::{convert_markdown, headings_fit, heading_ends, transform};
use crate::markdown::pulldown::{md_events, pulldown_html};
use crate::text::{trim, trim_chars};
use gray_matter::{Matter, Pod};
use gray_matter::engine::YAML;
use crate::sitemap::{sitemap_events, write_sitemap_for_posts, xml_bytes, SitemapError};
use crate::rss::{atom_xml, feed_converts, feed_for, newest_date, write_atom_for_posts, AtomFeedError};
use crate::post::PostDate;

pub use crate::slugify::{GitHubSlugifier, Slugify};
pub use crate::markdown::CustomHeading;

verus! {

// ---------------------------------------------------------------------------
// Paths
/// Whether a path starts at the root.
pub open spec fn is_absolute(s: Seq<char>) -> bool {
    s.len() > 0 && s[0] == '/'
}

/// Whether the `i`-th piece between slashes is a component: empty pieces
/// (repeated or trailing slashes) and `.` pieces are not, but for a leading `.`.
pub open spec fn keep_segment(i: int, seg: Seq<char>) -> bool {
    seg.len() > 0 && (seg != seq!['.'] || i == 0)
}

pub open spec fn kept_segments(segs: Seq<Seq<char>>, n: nat) -> Seq<Seq<char>>
    decreases n,
{
    if n == 0 {
        Seq::empty()
    } else if keep_segment(n - 1, segs[n - 1]) {
        kept_segments(segs, (n - 1) as nat).push(segs[n - 1])
    } else {
        kept_segments(segs, (n - 1) as nat)
    }
}

/// The components of a path: the pieces between slashes, without empty ones
/// and without `.` but for a leading one.
pub open spec fn components(s: Seq<char>) -> Seq<Seq<char>> {
    kept_segments(split_on(s, '/'), split_on(s, '/').len())
}

/// The positions, among the first `n` pieces between slashes, of those that
/// are components.
pub open spec fn kept_indices(segs: Seq<Seq<char>>, n: nat) -> Seq<int>
    decreases n,
{
    if n == 0 {
        Seq::empty()
    } else if keep_segment(n - 1, segs[n - 1]) {
        kept_indices(segs, (n - 1) as nat).push(n - 1)
    } else {
        kept_indices(segs, (n - 1) as nat)
    }
}

/// The pieces of a path between slashes, as written.
pub open spec fn path_pieces(s: Seq<char>) -> Seq<Seq<char>> {
    split_on(s, '/')
}

/// The positions of a path's components among its pieces.
pub open spec fn component_positions(s: Seq<char>) -> Seq<int> {
    kept_indices(path_pieces(s), path_pieces(s).len())
}

/// The text of a path from piece `a` up to piece `b`, as written.
pub open spec fn piece_text(s: Seq<char>, a: int, b: int) -> Seq<char> {
    join_with(path_pieces(s).subrange(a, b), seq!['/'])
}

/// `Path::parent`: the text up to the component before the last one, as
/// written; the root, or nothing, for a path of one component; `None` for a
/// path without components.
pub open spec fn parent_path(s: Seq<char>) -> Option<Seq<char>> {
    let ks = component_positions(s);
    if ks.len() == 0 {
        None
    } else if ks.len() == 1 {
        Some(if is_absolute(s) { seq!['/'] } else { Seq::<char>::empty() })
    } else {
        Some(piece_text(s, 0, ks[ks.len() - 2] + 1))
    }
}

/// The components of a path with the root first (as an empty piece) when it
/// starts at the root: what `Path::strip_prefix` compares.
pub open spec fn rooted_components(s: Seq<char>) -> Seq<Seq<char>> {
    (if is_absolute(s) { seq![Seq::<char>::empty()] } else { Seq::<Seq<char>>::empty() }) + components(s)
}

/// What is left of a path once its first `consumed` components (the root
/// counting as one) are taken away, as written: from the next component to
/// the last one. With nothing taken away, the path without what follows its
/// last component.
pub open spec fn path_rest(s: Seq<char>, consumed: int) -> Seq<char> {
    let ks = component_positions(s);
    if consumed == 0 {
        if ks.len() == 0 {
            if is_absolute(s) { seq!['/'] } else { Seq::<char>::empty() }
        } else {
            piece_text(s, 0, ks.last() + 1)
        }
    } else {
        let c = if is_absolute(s) { consumed - 1 } else { consumed };
        if c >= ks.len() {
            Seq::<char>::empty()
        } else {
            piece_text(s, ks[c], ks.last() + 1)
        }
    }
}

/// `Path::strip_prefix`: when the components of `base` start those of `s`,
/// what is left of `s`.
pub open spec fn strip_path_prefix(s: Seq<char>, base: Seq<char>) -> Option<Seq<char>> {
    let cs = rooted_components(s);
    let cb = rooted_components(base);
    if cb.len() <= cs.len() && cs.take(cb.len() as int) == cb {
        Some(path_rest(s, cb.len() as int))
    } else {
        None
    }
}

/// `PathBuf::push`: a path that starts at the root replaces the base;
/// otherwise it is appended, with a `/` between when the base does not end
/// with one.
pub open spec fn path_push(base: Seq<char>, p: Seq<char>) -> Seq<char> {
    if is_absolute(p) {
        p
    } else if base.len() == 0 || base.last() == '/' {
        base + p
    } else {
        base + seq!['/'] + p
    }
}

/// The paths of the directories above a file, from the top one down
/// (`Path::ancestors` without the file itself and without the empty path),
/// as written: the root for a path that starts there, then the text up to
/// each component but the last.
pub open spec fn ancestor_paths(path: Seq<char>) -> Seq<Seq<char>> {
    let ks = component_positions(path);
    if ks.len() == 0 {
        Seq::empty()
    } else {
        (if is_absolute(path) { seq![seq!['/']] } else { Seq::<Seq<char>>::empty() })
            + Seq::new((ks.len() - 1) as nat, |k: int| piece_text(path, 0, ks[k] + 1))
    }
}

/// Keeps the names that are not `.` or `..`.
pub open spec fn named(comps: Seq<Seq<char>>) -> Seq<Seq<char>>
    decreases comps.len(),
{
    if comps.len() == 0 {
        Seq::empty()
    } else if comps.last() == seq!['.'] || comps.last() == seq!['.', '.'] {
        named(comps.drop_last())
    } else {
        named(comps.drop_last()).push(comps.last())
    }
}

/// The names of the directories above a file, from the top one down.
pub open spec fn ancestor_names(path: Seq<char>) -> Seq<Seq<char>> {
    let c = components(path);
    if c.len() == 0 {
        Seq::empty()
    } else {
        named(c.drop_last())
    }
}

pub open spec fn vec_views(v: Seq<Vec<char>>) -> Seq<Seq<char>> {
    v.map_values(|x: Vec<char>| x@)
}

pub open spec fn string_views(v: Seq<String>) -> Seq<Seq<char>> {
    v.map_values(|x: String| x@)
}

/// A copy of some characters.
fn clone_chars(v: &[char]) -> (r: Vec<char>)
    ensures
        r@ == v@,
{
    let mut out: Vec<char> = Vec::new();
    push_chars(&mut out, v);
    out
}

/// Whether `base` is a prefix of `comps`.
fn is_prefix_of(base: &Vec<Vec<char>>, comps: &Vec<Vec<char>>) -> (r: bool)
    ensures
        r == (base@.len() <= comps@.len() && vec_views(comps@).take(base@.len() as int) == vec_views(base@)),
{
    if base.len() > comps.len() {
        return false;
    }
    let ghost b = vec_views(base@);
    let ghost d = vec_views(comps@);
    let mut k: usize = 0;
    while k < base.len()
        invariant
            k <= base@.len() <= comps@.len(),
            b == vec_views(base@),
            d == vec_views(comps@),
            forall|m: int| 0 <= m < k ==> d[m] == b[m],
        decreases base@.len() - k,
    {
        if !chars_eq(&comps[k], &base[k]) {
            assert(d.take(b.len() as int)[k as int] == d[k as int]);
            return false;
        }
        k = k + 1;
    }
    assert(d.take(b.len() as int) =~= b);
    true
}

/// The components of a path, and whether it starts at the root.
fn path_components(s: &[char]) -> (r: (bool, Vec<Vec<char>>))
    ensures
        r.0 == is_absolute(s@),
        vec_views(r.1@) == components(s@),
{
    let segs = split_chars(s, '/');
    let ghost ss = split_on(s@, '/');
    let mut comps: Vec<Vec<char>> = Vec::new();
    let mut i: usize = 0;
    while i < segs.len()
        invariant
            i <= segs@.len(),
            ss == split_on(s@, '/'),
            segs@.len() == ss.len(),
            forall|k: int| 0 <= k < segs@.len() ==> (#[trigger] segs@[k])@ == ss[k],
            vec_views(comps@) == kept_segments(ss, i as nat),
        decreases segs@.len() - i,
    {
        let seg = &segs[i];
        let is_dot = seg.len() == 1 && seg[0] == '.';
        assert(is_dot == (seg@ == seq!['.'])) by {
            if seg@.len() == 1 && seg@[0] == '.' {
                assert(seg@ =~= seq!['.']);
            }
        }
        if seg.len() > 0 && (!is_dot || i == 0) {
            let c = clone_chars(seg);
            assert(vec_views(comps@.push(c)) =~= vec_views(comps@).push(c@));
            comps.push(c);
        }
        i = i + 1;
    }
    let abs = s.len() > 0 && s[0] == '/';
    (abs, comps)
}

pub open spec fn chars_opt(o: Option<Vec<char>>) -> Option<Seq<char>> {
    match o {
        Some(v) => Some(v@),
        None => None,
    }
}

proof fn lemma_kept_indices(segs: Seq<Seq<char>>, n: nat)
    requires
        n <= segs.len(),
    ensures
        kept_segments(segs, n) == kept_indices(segs, n).map_values(|i: int| segs[i]),
        forall|a: int| 0 <= a < kept_indices(segs, n).len() ==> 0 <= #[trigger] kept_indices(segs, n)[a] < n
            && keep_segment(kept_indices(segs, n)[a], segs[kept_indices(segs, n)[a]]),
        forall|a: int, b: int| 0 <= a < b < kept_indices(segs, n).len()
            ==> #[trigger] kept_indices(segs, n)[a] < #[trigger] kept_indices(segs, n)[b],
    decreases n,
{
    if n > 0 {
        lemma_kept_indices(segs, (n - 1) as nat);
        let prev = kept_indices(segs, (n - 1) as nat);
        if keep_segment(n - 1, segs[n - 1]) {
            assert(prev.push(n - 1).map_values(|i: int| segs[i]) =~= prev.map_values(|i: int| segs[i]).push(segs[n - 1]));
        }
    }
}

/// The pieces of a path between slashes, and the positions of its components.
fn path_parts(s: &[char]) -> (r: (Vec<Vec<char>>, Vec<usize>))
    ensures
        vec_views(r.0@) == path_pieces(s@),
        r.1@.map_values(|i: usize| i as int) == component_positions(s@),
{
    let segs = split_chars(s, '/');
    let ghost ss = split_on(s@, '/');
    let mut pieces: Vec<Vec<char>> = Vec::new();
    let mut ks: Vec<usize> = Vec::new();
    let mut i: usize = 0;
    while i < segs.len()
        invariant
            i <= segs@.len(),
            ss == split_on(s@, '/'),
            segs@.len() == ss.len(),
            forall|k: int| 0 <= k < segs@.len() ==> (#[trigger] segs@[k])@ == ss[k],
            vec_views(pieces@) == ss.take(i as int),
            ks@.map_values(|k: usize| k as int) == kept_indices(ss, i as nat),
        decreases segs@.len() - i,
    {
        let seg = &segs[i];
        let is_dot = seg.len() == 1 && seg[0] == '.';
        assert(is_dot == (seg@ == seq!['.'])) by {
            if seg@.len() == 1 && seg@[0] == '.' {
                assert(seg@ =~= seq!['.']);
            }
        }
        if seg.len() > 0 && (!is_dot || i == 0) {
            assert(ks@.push(i).map_values(|k: usize| k as int) =~= ks@.map_values(|k: usize| k as int).push(i as int));
            ks.push(i);
        }
        let c = clone_chars(seg);
        assert(vec_views(pieces@.push(c)) =~= vec_views(pieces@).push(c@));
        pieces.push(c);
        i = i + 1;
        assert(ss.take(i as int) =~= ss.take(i - 1).push(ss[i - 1]));
    }
    assert(ss.take(i as int) =~= ss);
    (pieces, ks)
}

/// The pieces from `a` up to `b`, joined with `/`.
fn piece_range(p: &Vec<Vec<char>>, a: usize, b: usize) -> (r: Vec<char>)
    requires
        a <= b <= p@.len(),
    ensures
        r@ == join_with(vec_views(p@).subrange(a as int, b as int), seq!['/']),
{
    let ghost v = vec_views(p@);
    let mut out: Vec<char> = Vec::new();
    let mut i: usize = a;
    while i < b
        invariant
            a <= i <= b <= p@.len(),
            v == vec_views(p@),
            out@ == join_with(v.subrange(a as int, i as int), seq!['/']),
        decreases b - i,
    {
        if i > a {
            out.push('/');
        }
        push_chars(&mut out, &p[i]);
        i = i + 1;
        assert(v.subrange(a as int, i as int).drop_last() =~= v.subrange(a as int, i - 1));
        assert(v.subrange(a as int, i as int).last() == p@[i - 1]@);
        if i - 1 > a {
            assert(join_with(v.subrange(a as int, i - 1), seq!['/']).push('/')
                =~= join_with(v.subrange(a as int, i - 1), seq!['/']) + seq!['/']);
        } else {
            assert(v.subrange(a as int, i - 1).len() == 0);
        }
    }
    out
}

/// `Path::parent`, as written.
fn parent_of(s: &[char]) -> (r: Option<Vec<char>>)
    ensures
        chars_opt(r) == parent_path(s@),
{
    let (p, ks) = path_parts(s);
    let ghost ss = path_pieces(s@);
    proof {
        lemma_kept_indices(ss, ss.len());
    }
    let ghost kv = ks@.map_values(|i: usize| i as int);
    let n = ks.len();
    if n == 0 {
        None
    } else if n == 1 {
        let mut v: Vec<char> = Vec::new();
        if s.len() > 0 && s[0] == '/' {
            v.push('/');
            assert(v@ =~= seq!['/']);
        }
        Some(v)
    } else {
        let k = ks[n - 2];
        assert(kv[n - 2] == k as int);
        let plen = p.len();
        assert(vec_views(p@).len() == p@.len());
        assert(kv[n - 2] < ss.len());
        assert(k < plen);
        Some(piece_range(&p, 0, k + 1))
    }
}

/// The root (as an empty piece) when there is one, then the components.
fn rooted(abs: bool, comps: Vec<Vec<char>>) -> (r: Vec<Vec<char>>)
    ensures
        vec_views(r@) == (if abs { seq![Seq::<char>::empty()] } else { Seq::<Seq<char>>::empty() }) + vec_views(comps@),
{
    let mut out: Vec<Vec<char>> = Vec::new();
    if abs {
        out.push(Vec::new());
    }
    let ghost head = out@;
    let mut rest = comps;
    let ghost tail = rest@;
    out.append(&mut rest);
    assert(vec_views(head + tail) =~= vec_views(head) + vec_views(tail));
    assert(vec_views(out@) =~= (if abs { seq![Seq::<char>::empty()] } else { Seq::<Seq<char>>::empty() }) + vec_views(comps@));
    out
}

/// What is left of a path once its first `consumed` components are taken
/// away, as written.
fn rest_of(s: &[char], consumed: usize) -> (r: Vec<char>)
    ensures
        r@ == path_rest(s@, consumed as int),
{
    let (p, ks) = path_parts(s);
    let ghost ss = path_pieces(s@);
    proof {
        lemma_kept_indices(ss, ss.len());
    }
    let ghost kv = ks@.map_values(|i: usize| i as int);
    let abs = s.len() > 0 && s[0] == '/';
    let n = ks.len();
    if consumed == 0 {
        if n == 0 {
            let mut v: Vec<char> = Vec::new();
            if abs {
                v.push('/');
                assert(v@ =~= seq!['/']);
            }
            v
        } else {
            assert(kv[n - 1] == ks@[n - 1] as int);
            let plen = p.len();
            assert(vec_views(p@).len() == p@.len());
            assert(kv[n - 1] < ss.len());
            assert(ks@[n - 1] < plen);
            piece_range(&p, 0, ks[n - 1] + 1)
        }
    } else {
        let c = if abs { consumed - 1 } else { consumed };
        if c >= n {
            Vec::new()
        } else {
            assert(kv[c as int] == ks@[c as int] as int);
            assert(kv[n - 1] == ks@[n - 1] as int);
            assert(c == n - 1 || kv[c as int] < kv[n - 1]);
            let plen = p.len();
            assert(vec_views(p@).len() == p@.len());
            assert(kv[n - 1] < ss.len());
            assert(ks@[n - 1] < plen);
            piece_range(&p, ks[c], ks[n - 1] + 1)
        }
    }
}

/// `Path::strip_prefix`, as written.
fn strip_path(s: &[char], base: &[char]) -> (r: Option<Vec<char>>)
    ensures
        chars_opt(r) == strip_path_prefix(s@, base@),
{
    let (sabs, sc) = path_components(s);
    let (babs, bc) = path_components(base);
    let rs = rooted(sabs, sc);
    let rb = rooted(babs, bc);
    if is_prefix_of(&rb, &rs) {
        Some(rest_of(s, rb.len()))
    } else {
        None
    }
}

/// `PathBuf::push`.
fn push_path(base: &[char], p: &[char]) -> (r: Vec<char>)
    ensures
        r@ == path_push(base@, p@),
{
    let mut out: Vec<char> = Vec::new();
    if p.len() > 0 && p[0] == '/' {
        push_chars(&mut out, p);
    } else {
        push_chars(&mut out, base);
        if !(base.len() == 0 || base[base.len() - 1] == '/') {
            out.push('/');
        }
        push_chars(&mut out, p);
        assert(out@ =~= path_push(base@, p@));
    }
    out
}

fn to_strings(v: &Vec<Vec<char>>) -> (r: Vec<String>)
    ensures
        string_views(r@) == vec_views(v@),
{
    let mut out: Vec<String> = Vec::new();
    let mut i: usize = 0;
    while i < v.len()
        invariant
            i <= v@.len(),
            string_views(out@) == vec_views(v@).take(i as int),
        decreases v@.len() - i,
    {
        let s = string_of(&v[i]);
        assert(string_views(out@.push(s)) =~= string_views(out@).push(s@));
        out.push(s);
        i = i + 1;
        assert(vec_views(v@).take(i as int) =~= vec_views(v@).take(i - 1).push(v@[i - 1]@));
    }
    assert(vec_views(v@).take(i as int) =~= vec_views(v@));
    out
}

/// The paths of the directories above a file, from the top one down, as
/// written.
pub fn get_ancestor_directories_paths(path: &str) -> (r: Vec<String>)
    ensures
        string_views(r@) == ancestor_paths(path@),
{
    let cs = chars_of(path);
    let (p, ks) = path_parts(&cs);
    let ghost ss = path_pieces(path@);
    proof {
        lemma_kept_indices(ss, ss.len());
    }
    let ghost kv = ks@.map_values(|i: usize| i as int);
    let mut out: Vec<Vec<char>> = Vec::new();
    let n = ks.len();
    if n == 0 {
        assert(vec_views(out@) =~= ancestor_paths(path@));
        return to_strings(&out);
    }
    let abs = cs.len() > 0 && cs[0] == '/';
    if abs {
        let mut root: Vec<char> = Vec::new();
        root.push('/');
        assert(root@ =~= seq!['/']);
        out.push(root);
    }
    let ghost head = vec_views(out@);
    assert(head =~= (if is_absolute(path@) { seq![seq!['/']] } else { Seq::<Seq<char>>::empty() }));
    let mut k: usize = 0;
    while k + 1 < n
        invariant
            k + 1 <= n,
            n == ks@.len(),
            kv == ks@.map_values(|i: usize| i as int),
            kv == component_positions(path@),
            vec_views(p@) == ss,
            ss == path_pieces(path@),
            forall|a: int| 0 <= a < kv.len() ==> 0 <= #[trigger] kv[a] < ss.len(),
            vec_views(out@) == head + Seq::new(k as nat, |m: int| piece_text(path@, 0, kv[m] + 1)),
        decreases n - k,
    {
        assert(kv[k as int] == ks@[k as int] as int);
        let plen = p.len();
        assert(vec_views(p@).len() == p@.len());
        assert(kv[k as int] < ss.len());
        assert(ks@[k as int] < plen);
        let x = piece_range(&p, 0, ks[k] + 1);
        assert(vec_views(out@.push(x)) =~= vec_views(out@).push(x@));
        out.push(x);
        k = k + 1;
        assert(vec_views(out@) =~= head + Seq::new(k as nat, |m: int| piece_text(path@, 0, kv[m] + 1)));
    }
    assert(vec_views(out@) =~= ancestor_paths(path@));
    to_strings(&out)
}

/// The names of the directories above a file, from the top one down.
pub fn get_ancestor_directories_names(path: &str) -> (r: Vec<String>)
    ensures
        string_views(r@) == ancestor_names(path@),
{
    let cs = chars_of(path);
    let (_abs, comps) = path_components(&cs);
    let ghost c = vec_views(comps@);
    let mut out: Vec<Vec<char>> = Vec::new();
    if comps.len() == 0 {
        assert(vec_views(out@) =~= ancestor_names(path@));
        return to_strings(&out);
    }
    let last = comps.len() - 1;
    let mut k: usize = 0;
    while k < last
        invariant
            k <= last,
            last + 1 == comps@.len(),
            c == vec_views(comps@),
            vec_views(out@) == named(c.take(k as int)),
        decreases last - k,
    {
        let comp = &comps[k];
        let dot = comp.len() == 1 && comp[0] == '.';
        let dotdot = comp.len() == 2 && comp[0] == '.' && comp[1] == '.';
        assert(c.take(k + 1).drop_last() =~= c.take(k as int));
        assert(c.take(k + 1).last() == comp@);
        assert((dot || dotdot) == (comp@ == seq!['.'] || comp@ == seq!['.', '.'])) by {
            if comp@.len() == 1 && comp@[0] == '.' {
                assert(comp@ =~= seq!['.']);
            }
            if comp@.len() == 2 && comp@[0] == '.' && comp@[1] == '.' {
                assert(comp@ =~= seq!['.', '.']);
            }
        }
        if !(dot || dotdot) {
            let x = clone_chars(comp);
            assert(vec_views(out@.push(x)) =~= vec_views(out@).push(x@));
            out.push(x);
        }
        k = k + 1;
    }
    assert(c.take(last as int) =~= c.drop_last());
    to_strings(&out)
}

// ---------------------------------------------------------------------------
// URLs of posts
/// Whether `form_urlencoded` leaves a byte as it is.
pub open spec fn url_unreserved(b: u8) -> bool {
    b == 0x2a || b == 0x2d || b == 0x2e || (0x30 <= b <= 0x39) || (0x41 <= b <= 0x5a) || b == 0x5f
        || (0x61 <= b <= 0x7a)
}

/// An upper-case hexadecimal digit.
pub open spec fn hex_digit(d: u8) -> char {
    if d < 10 {
        ((d + 0x30) as u8) as char
    } else {
        ((d - 10 + 0x41) as u8) as char
    }
}

/// How `form_urlencoded::byte_serialize` writes one byte.
pub open spec fn url_encode_byte(b: u8) -> Seq<char> {
    if url_unreserved(b) {
        seq![b as char]
    } else if b == 0x20 {
        seq!['+']
    } else {
        seq!['%', hex_digit(b / 16), hex_digit(b % 16)]
    }
}

/// `form_urlencoded::byte_serialize` of some bytes, collected into a string.
pub open spec fn url_encode(bytes: Seq<u8>) -> Seq<char>
    decreases bytes.len(),
{
    if bytes.len() == 0 {
        Seq::empty()
    } else {
        url_encode(bytes.drop_last()) + url_encode_byte(bytes.last())
    }
}

/// `form_urlencoded::byte_serialize` of the UTF-8 bytes of a string: ASCII
/// letters, digits and `*-._` stay, a space becomes `+`, every other byte
/// becomes `%` and two upper-case hexadecimal digits.
#[verifier::external_body]
pub(crate) fn form_urlencode(s: &str) -> (r: String)
    ensures
        r@ == url_encode(s.spec_bytes()),
{
    form_urlencoded::byte_serialize(s.as_bytes()).collect::<String>()
}

/// The slug as it goes into a URL.
pub open spec fn slug_segment(slug: Seq<char>, encoded: bool) -> Seq<char> {
    if encoded {
        url_encode(vstd::utf8::encode_utf8(slug))
    } else {
        slug
    }
}

/// The directory of a file (`PathBuf::pop`), without its root
/// (`strip_prefix("/")`) when it has one.
pub open spec fn relative_dir(file_path: Seq<char>) -> Seq<char> {
    let dir = match parent_path(file_path) {
        Some(t) => t,
        None => file_path,
    };
    match strip_path_prefix(dir, seq!['/']) {
        Some(t) => t,
        None => dir,
    }
}

/// The URL path of a post, before the blog prefix, as `PathBuf` gives it:
/// the file's directory (`pop`), without a root (`strip_prefix("/")`) and
/// without the input directory (`strip_prefix`) where they are there, with
/// the slug pushed on it (`push`), ending with `/`.
pub open spec fn url_below_prefix(
    slug: Option<Seq<char>>,
    file_path: Seq<char>,
    input_directory: Seq<char>,
    encoded: bool,
) -> Seq<char> {
    let rel = relative_dir(file_path);
    let below = match strip_path_prefix(rel, input_directory) {
        Some(t) => t,
        None => rel,
    };
    let url = match slug {
        Some(s) => path_push(below, slug_segment(s, encoded)),
        None => below,
    };
    if url.len() > 0 && url.last() == '/' {
        url
    } else {
        url + seq!['/']
    }
}

/// The URL path of a post: the blog prefix, the file's directory below the
/// input directory, and the front matter's slug (URL-encoded when `encoded`),
/// ending with `/`.
pub open spec fn url_path_for_post(
    slug: Option<Seq<char>>,
    file_path: Seq<char>,
    input_directory: Seq<char>,
    blog_prefix_path: Seq<char>,
    encoded: bool,
) -> Seq<char> {
    path_push(blog_prefix_path, url_below_prefix(slug, file_path, input_directory, encoded))
}

/// The URL path of a post before the blog prefix.
fn url_without_prefix(slug: Option<&String>, file_path: &str, input_directory: &str, encoded: bool) -> (r: Vec<char>)
    ensures
        r@ == url_below_prefix(
            match slug {
                Some(s) => Some(s@),
                None => None,
            },
            file_path@,
            input_directory@,
            encoded,
        ),
{
    let fc = chars_of(file_path);
    let u1 = match parent_of(&fc) {
        Some(t) => t,
        None => fc,
    };
    let mut slash: Vec<char> = Vec::new();
    slash.push('/');
    assert(slash@ =~= seq!['/']);
    let u2 = match strip_path(&u1, &slash) {
        Some(t) => t,
        None => u1,
    };
    let ic = chars_of(input_directory);
    let u3 = match strip_path(&u2, &ic) {
        Some(t) => t,
        None => u2,
    };
    let mut url = match slug {
        Some(sl) => {
            let seg = if encoded {
                form_urlencode(sl.as_str())
            } else {
                sl.clone()
            };
            assert(seg@ == slug_segment(sl@, encoded));
            let sc = chars_of(seg.as_str());
            push_path(&u3, &sc)
        },
        None => u3,
    };
    if !(url.len() > 0 && url[url.len() - 1] == '/') {
        url.push('/');
    }
    url
}

/// The URL path of a post: the blog prefix, the file's directory below the
/// input directory, and the front matter's slug (URL-encoded when
/// `encoded`), ending with `/`.
pub fn extract_path_url_for_post(
    front_matter: &Option<FrontMatter>,
    file_path: &str,
    input_directory: &str,
    blog_prefix_path: &str,
    encoded: bool,
) -> (r: String)
    ensures
        r@ == url_path_for_post(
            match front_matter {
                Some(fm) => Some(fm.slug@),
                None => None,
            },
            file_path@,
            input_directory@,
            blog_prefix_path@,
            encoded,
        ),
{
    let slug = match front_matter {
        Some(fm) => Some(&fm.slug),
        None => None,
    };
    let url = url_without_prefix(slug, file_path, input_directory, encoded);
    let pc = chars_of(blog_prefix_path);
    let out = push_path(&pc, &url);
    string_of(&out)
}

/// The directory a post is written to: its URL path below the output
/// directory, or the output directory itself for the URL path `/`.
pub open spec fn output_directory_for(output_directory: Seq<char>, url_path: Seq<char>) -> Seq<char> {
    if url_path == seq!['/'] {
        output_directory
    } else {
        path_push(output_directory, url_path)
    }
}

/// The directory a post is written to.
pub fn get_output_directory_for_post(output_directory: String, post: &Post) -> (r: String)
    ensures
        r@ == output_directory_for(output_directory@, post.url_path@),
{
    let up = chars_of(post.url_path.as_str());
    let is_root = up.len() == 1 && up[0] == '/';
    assert(is_root == (up@ == seq!['/'])) by {
        if up@.len() == 1 && up@[0] == '/' {
            assert(up@ =~= seq!['/']);
        }
    }
    if is_root {
        output_directory
    } else {
        let oc = chars_of(output_directory.as_str());
        let out = push_path(&oc, &up);
        string_of(&out)
    }
}


// ---------------------------------------------------------------------------
// Reading posts
#[verifier::external_type_specification]
#[verifier::external_body]
pub struct ExPod(Pod);

/// What `gray_matter::Matter::<YAML>::parse` gives for a text, with an
/// excerpt delimiter: whether front matter data was found, the excerpt, and
/// the content without the front matter.
pub uninterp spec fn matter_parts(input: Seq<char>, delimiter: Seq<char>) -> (bool, Option<Seq<char>>, Seq<char>);

/// The line that ends a post's excerpt.
pub open spec fn excerpt_delimiter() -> Seq<char> {
    "<!-- TEASER_END -->"@
}

/// A Markdown file split into its front matter and its content.
pub struct MatterParts {
    /// The front matter's YAML data, if the file starts with a front matter.
    pub data: Option<Pod>,
    /// The text up to the `<!-- TEASER_END -->` line, if there is one.
    pub excerpt: Option<String>,
    /// The text after the front matter.
    pub content: String,
}

impl MatterParts {
    pub open spec fn parts(&self) -> (bool, Option<Seq<char>>, Seq<char>) {
        (self.data is Some, opt_view(self.excerpt), self.content@)
    }
}

/// `gray_matter::Matter::<YAML>::parse` with an excerpt delimiter.
#[verifier::external_body]
fn matter_parse(input: &str, delimiter: &str) -> (r: MatterParts)
    ensures
        r.parts() == matter_parts(input@, delimiter@),
{
    let mut matter = Matter::<YAML>::new();
    matter.excerpt_delimiter = Some(delimiter.to_owned());
    let parsed = matter.parse(input);
    MatterParts { data: parsed.data, excerpt: parsed.excerpt, content: parsed.content }
}

/// Splits a Markdown file, trimmed, into its front matter, its excerpt and
/// its content.
pub fn split_front_matter(content: &str) -> (r: MatterParts)
    ensures
        r.parts() == matter_parts(trim(content@), excerpt_delimiter()),
{
    let cs = chars_of(content);
    let t = trim_chars(&cs);
    let ts = string_of(&t);
    matter_parse(ts.as_str(), "<!-- TEASER_END -->")
}

/// The names of the directories above a file, without the input directory.
pub open spec fn names_without(names: Seq<Seq<char>>, input_directory: Seq<char>) -> Seq<Seq<char>>
    decreases names.len(),
{
    if names.len() == 0 {
        Seq::empty()
    } else if names.last() == input_directory {
        names_without(names.drop_last(), input_directory)
    } else {
        names_without(names.drop_last(), input_directory).push(names.last())
    }
}

fn retain_not_equal(names: Vec<String>, input_directory: &str) -> (r: Vec<String>)
    ensures
        string_views(r@) == names_without(string_views(names@), input_directory@),
{
    let ghost all = string_views(names@);
    let dir = chars_of(input_directory);
    let mut out: Vec<String> = Vec::new();
    let mut i: usize = 0;
    while i < names.len()
        invariant
            i <= names@.len(),
            all == string_views(names@),
            dir@ == input_directory@,
            string_views(out@) == names_without(all.take(i as int), input_directory@),
        decreases names@.len() - i,
    {
        let nc = chars_of(names[i].as_str());
        assert(all.take(i + 1).drop_last() =~= all.take(i as int));
        assert(all.take(i + 1).last() == names@[i as int]@);
        if !chars_eq(&nc, &dir) {
            let x = names[i].clone();
            assert(string_views(out@.push(x)) =~= string_views(out@).push(x@));
            out.push(x);
        }
        i = i + 1;
    }
    assert(all.take(i as int) =~= all);
    out
}

/// The post a file holds, given its front matter (if it has one), excerpt and
/// content: `None` when there is no front matter or it does not read.
pub fn parse_post(
    front_matter: Option<RawFrontMatter>,
    excerpt: Option<String>,
    content: String,
    file_path: &str,
    input_directory: &str,
    blog_prefix_path: &str,
) -> (r: Option<Post>)
    ensures
        r is Some <==> (front_matter matches Some(raw) && FrontMatter::raw_reads(raw)),
        r matches Some(post) ==> {
            &&& front_matter matches Some(raw) && FrontMatter::reads_as(raw, post.front_matter)
            &&& post.wf()
            &&& post.excerpt == excerpt
            &&& post.content == content
            &&& post.path@ == file_path@
            &&& post.url_path@ == url_path_for_post(Some(post.front_matter.slug@), file_path@, input_directory@, blog_prefix_path@, false)
            &&& post.url_path_encoded@ == url_path_for_post(Some(post.front_matter.slug@), file_path@, input_directory@, blog_prefix_path@, true)
            &&& string_views(post.ancestor_directories_paths@) == ancestor_paths(file_path@)
            &&& string_views(post.ancestor_directories_names@) == names_without(ancestor_names(file_path@), input_directory@)
        },
{
    let fm = match front_matter {
        Some(raw) => FrontMatter::from_raw(raw),
        None => None,
    };
    let path_url = extract_path_url_for_post(&fm, file_path, input_directory, blog_prefix_path, false);
    let path_url_encoded = extract_path_url_for_post(&fm, file_path, input_directory, blog_prefix_path, true);
    let names = get_ancestor_directories_names(file_path);
    let names = retain_not_equal(names, input_directory);
    match fm {
        Some(fm) => {
            let paths = get_ancestor_directories_paths(file_path);
            Some(Post::new(fm, excerpt, content, String::from_str(file_path), path_url, path_url_encoded, paths, names))
        },
        None => None,
    }
}

/// Whether a post is published: it is not a draft, or drafts are published.
pub open spec fn published(post: Post, publish_drafts: bool) -> bool {
    match post.front_matter.status {
        Some(status) => publish_drafts || status != PostStatus::Draft,
        None => true,
    }
}

/// The posts that are parsed and published, in order.
pub open spec fn published_posts(parsed: Seq<Option<Post>>, publish_drafts: bool) -> Seq<Post>
    decreases parsed.len(),
{
    if parsed.len() == 0 {
        Seq::empty()
    } else {
        let prev = published_posts(parsed.drop_last(), publish_drafts);
        match parsed.last() {
            Some(p) => if published(p, publish_drafts) { prev.push(p) } else { prev },
            None => prev,
        }
    }
}

/// Keeps the files that hold a post, and of those the posts that are not
/// drafts unless drafts are published, in order.
pub fn get_posts(parsed: Vec<Option<Post>>, publish_drafts: bool) -> (r: Vec<Post>)
    ensures
        r@ == published_posts(parsed@, publish_drafts),
{
    let ghost all = parsed@;
    let mut out: Vec<Post> = Vec::new();
    let mut rest = parsed;
    let n = rest.len();
    let mut i: usize = 0;
    while i < n
        invariant
            i <= n,
            n == all.len(),
            rest@ == all.skip(i as int),
            out@ == published_posts(all.take(i as int), publish_drafts),
        decreases n - i,
    {
        let item = rest.remove(0);
        assert(item == all[i as int]);
        assert(rest@ =~= all.skip(i + 1));
        assert(all.take(i + 1).drop_last() =~= all.take(i as int));
        match item {
            Some(post) => {
                let keep = match &post.front_matter.status {
                    Some(PostStatus::Draft) => publish_drafts,
                    None => true,
                };
                if keep {
                    out.push(post);
                }
            },
            None => {},
        }
        i = i + 1;
    }
    assert(all.take(n as int) =~= all);
    out
}


/// The posts of a parse, in order.
pub open spec fn parsed_posts(parsed: Seq<Option<Post>>) -> Seq<Post>
    decreases parsed.len(),
{
    if parsed.len() == 0 {
        Seq::empty()
    } else {
        match parsed.last() {
            Some(p) => parsed_posts(parsed.drop_last()).push(p),
            None => parsed_posts(parsed.drop_last()),
        }
    }
}

/// With drafts published, every file that holds a post gives its post, in
/// order.
pub proof fn law_publishing_drafts_keeps_every_post(parsed: Seq<Option<Post>>)
    ensures
        published_posts(parsed, true) == parsed_posts(parsed),
    decreases parsed.len(),
{
    if parsed.len() > 0 {
        law_publishing_drafts_keeps_every_post(parsed.drop_last());
    }
}

/// With drafts not published, no draft is kept.
pub proof fn law_drafts_are_not_published(parsed: Seq<Option<Post>>)
    ensures
        forall|i: int| 0 <= i < published_posts(parsed, false).len() ==>
            (#[trigger] published_posts(parsed, false)[i]).front_matter.status is None,
    decreases parsed.len(),
{
    if parsed.len() > 0 {
        law_drafts_are_not_published(parsed.drop_last());
    }
}

/// Every kept post is a post of the parse, and drafts are kept only when
/// drafts are published.
pub proof fn law_kept_posts_are_published(parsed: Seq<Option<Post>>, publish_drafts: bool)
    ensures
        forall|i: int| 0 <= i < published_posts(parsed, publish_drafts).len() ==> {
            &&& published(#[trigger] published_posts(parsed, publish_drafts)[i], publish_drafts)
            &&& parsed.contains(Some(published_posts(parsed, publish_drafts)[i]))
        },
    decreases parsed.len(),
{
    if parsed.len() > 0 {
        let prev = parsed.drop_last();
        law_kept_posts_are_published(prev, publish_drafts);
        let kept = published_posts(parsed, publish_drafts);
        assert forall|i: int| 0 <= i < kept.len() implies {
            &&& published(#[trigger] kept[i], publish_drafts)
            &&& parsed.contains(Some(kept[i]))
        } by {
            let pk = published_posts(prev, publish_drafts);
            if i < pk.len() {
                assert(kept[i] == pk[i]);
                let j = choose|j: int| 0 <= j < prev.len() && prev[j] == Some(pk[i]);
                assert(parsed[j] == prev[j]);
            } else {
                assert(parsed[parsed.len() - 1] == Some(kept[i]));
            }
        }
    }
}

/// The posts that are not drafts, in order.
pub open spec fn without_drafts(posts: Seq<Post>) -> Seq<Post>
    decreases posts.len(),
{
    if posts.len() == 0 {
        Seq::empty()
    } else if posts.last().front_matter.status == Some(PostStatus::Draft) {
        without_drafts(posts.drop_last())
    } else {
        without_drafts(posts.drop_last()).push(posts.last())
    }
}

/// The posts kept without drafts published are those kept with drafts
/// published, less the drafts.
pub proof fn law_unpublished_run_drops_drafts(parsed: Seq<Option<Post>>)
    ensures
        published_posts(parsed, false) == without_drafts(published_posts(parsed, true)),
    decreases parsed.len(),
{
    if parsed.len() > 0 {
        law_unpublished_run_drops_drafts(parsed.drop_last());
        let prev = published_posts(parsed.drop_last(), true);
        match parsed.last() {
            Some(p) => {
                assert(published_posts(parsed, true) == prev.push(p));
                assert(prev.push(p).drop_last() =~= prev);
            },
            None => {},
        }
    }
}

proof fn lemma_named_plain(comps: Seq<Seq<char>>)
    requires
        forall|i: int| 0 <= i < comps.len() ==> #[trigger] comps[i] != seq!['.'] && comps[i] != seq!['.', '.'],
    ensures
        named(comps) == comps,
    decreases comps.len(),
{
    if comps.len() > 0 {
        lemma_named_plain(comps.drop_last());
        assert(comps.drop_last().push(comps.last()) =~= comps);
    }
}

proof fn lemma_split_no_sep(b: Seq<char>)
    requires
        forall|j: int| 0 <= j < b.len() ==> b[j] != '/',
    ensures
        split_on(b, '/') == seq![b],
    decreases b.len(),
{
    if b.len() > 0 {
        lemma_split_no_sep(b.drop_last());
        assert(b.drop_last().push(b.last()) =~= b);
        assert(split_on(b, '/') =~= seq![b]);
    } else {
        assert(b =~= Seq::<char>::empty());
    }
}

proof fn lemma_split_concat(a: Seq<char>, b: Seq<char>)
    ensures
        split_on(a + seq!['/'] + b, '/') == split_on(a, '/') + split_on(b, '/'),
    decreases b.len(),
{
    let g = a + seq!['/'] + b;
    if b.len() == 0 {
        assert(g.drop_last() =~= a);
        assert(split_on(b, '/') =~= seq![Seq::<char>::empty()]);
        assert(split_on(g, '/') =~= split_on(a, '/') + split_on(b, '/'));
    } else {
        lemma_split_concat(a, b.drop_last());
        crate::text::lemma_split_on_nonempty(b.drop_last(), '/');
        assert(g.drop_last() =~= a + seq!['/'] + b.drop_last());
        assert(g.last() == b.last());
        assert(split_on(g, '/') =~= split_on(a, '/') + split_on(b, '/'));
    }
}

/// Splitting pieces joined with `/` gives the pieces back.
proof fn lemma_split_join(q: Seq<Seq<char>>)
    requires
        q.len() > 0,
        forall|i: int, j: int| 0 <= i < q.len() && 0 <= j < q[i].len() ==> #[trigger] q[i][j] != '/',
    ensures
        split_on(join_with(q, seq!['/']), '/') == q,
    decreases q.len(),
{
    if q.len() == 1 {
        assert forall|j: int| 0 <= j < q[0].len() implies q[0][j] != '/' by {}
        lemma_split_no_sep(q[0]);
        assert(seq![q[0]] =~= q);
    } else {
        let r = q.drop_last();
        assert forall|i: int, j: int| 0 <= i < r.len() && 0 <= j < r[i].len() implies #[trigger] r[i][j] != '/' by {
            assert(r[i] == q[i]);
        }
        lemma_split_join(r);
        let l = q.last();
        assert forall|j: int| 0 <= j < l.len() implies l[j] != '/' by {
            assert(q[q.len() - 1][j] != '/');
        }
        lemma_split_no_sep(l);
        lemma_split_concat(join_with(r, seq!['/']), l);
        assert(join_with(q, seq!['/']) == join_with(r, seq!['/']) + seq!['/'] + l);
        assert(r + seq![l] =~= q);
    }
}

proof fn lemma_split_after_slash(f: Seq<char>)
    ensures
        split_on(seq!['/'] + f, '/') == seq![Seq::<char>::empty()] + split_on(f, '/'),
    decreases f.len(),
{
    if f.len() == 0 {
        let g = seq!['/'] + f;
        assert(g.drop_last() =~= Seq::<char>::empty());
        assert(g.last() == '/');
        assert(split_on(g, '/') == split_on(g.drop_last(), '/').push(Seq::<char>::empty()));
        assert(split_on(g.drop_last(), '/') == seq![Seq::<char>::empty()]);
        assert(split_on(f, '/') == seq![Seq::<char>::empty()]);
        assert(split_on(g, '/') =~= seq![Seq::<char>::empty()] + split_on(f, '/'));
    } else {
        lemma_split_after_slash(f.drop_last());
        crate::text::lemma_split_on_nonempty(f.drop_last(), '/');
        let g = seq!['/'] + f;
        assert(g.drop_last() =~= seq!['/'] + f.drop_last());
        assert(g.last() == f.last());
        assert(split_on(g, '/') =~= seq![Seq::<char>::empty()] + split_on(f, '/'));
    }
}

proof fn lemma_first_piece_nonempty(f: Seq<char>)
    requires
        f.len() > 0,
        f[0] != '/',
    ensures
        split_on(f, '/')[0].len() > 0,
    decreases f.len(),
{
    crate::text::lemma_split_on_nonempty(f, '/');
    if f.len() == 1 {
        assert(f.drop_last() =~= Seq::<char>::empty());
    } else {
        lemma_first_piece_nonempty(f.drop_last());
        crate::text::lemma_split_on_nonempty(f.drop_last(), '/');
    }
}

proof fn lemma_kept_shift(p: Seq<Seq<char>>, k: nat)
    requires
        k <= p.len(),
        p.len() > 0 ==> p[0] != seq!['.'],
    ensures
        kept_indices(seq![Seq::<char>::empty()] + p, k + 1) == kept_indices(p, k).map_values(|i: int| i + 1),
    decreases k,
{
    let q = seq![Seq::<char>::empty()] + p;
    if k > 0 {
        lemma_kept_shift(p, (k - 1) as nat);
        assert(q[k as int] == p[k - 1]);
        let prev = kept_indices(p, (k - 1) as nat);
        assert(prev.push(k - 1).map_values(|i: int| i + 1) =~= prev.map_values(|i: int| i + 1).push(k as int));
    } else {
        assert(q[0] == Seq::<char>::empty());
        assert(kept_indices(q, 1) =~= kept_indices(q, 0));
        assert(kept_indices(p, 0).map_values(|i: int| i + 1) =~= Seq::<int>::empty());
    }
}

proof fn lemma_kept_of_take(p: Seq<Seq<char>>, n: nat, n2: nat)
    requires
        n <= n2 <= p.len(),
    ensures
        kept_indices(p.take(n2 as int), n) == kept_indices(p, n),
    decreases n,
{
    if n > 0 {
        lemma_kept_of_take(p, (n - 1) as nat, n2);
        assert(p.take(n2 as int)[n - 1] == p[n - 1]);
    }
}

proof fn lemma_kept_first(p: Seq<Seq<char>>, n: nat, n2: nat)
    requires
        n <= n2 <= p.len(),
        kept_indices(p, n).len() > 0,
    ensures
        kept_indices(p, n2).len() > 0,
        kept_indices(p, n2)[0] == kept_indices(p, n)[0],
    decreases n2,
{
    if n2 > n {
        lemma_kept_first(p, n, (n2 - 1) as nat);
    }
}

proof fn lemma_join_after_empty(q: Seq<Seq<char>>)
    requires
        q.len() > 0,
    ensures
        join_with(seq![Seq::<char>::empty()] + q, seq!['/']) == seq!['/'] + join_with(q, seq!['/']),
    decreases q.len(),
{
    let g = seq![Seq::<char>::empty()] + q;
    let sep = seq!['/'];
    if q.len() == 1 {
        assert(g.drop_last() =~= seq![Seq::<char>::empty()]);
        assert(g.last() == q[0]);
        assert(join_with(g, sep) == join_with(g.drop_last(), sep) + sep + g.last());
        assert(join_with(g.drop_last(), sep) =~= Seq::<char>::empty());
        assert(join_with(q, sep) == q[0]);
        assert(join_with(g, sep) =~= sep + join_with(q, sep));
    } else {
        lemma_join_after_empty(q.drop_last());
        assert(g.drop_last() =~= seq![Seq::<char>::empty()] + q.drop_last());
        assert(g.last() == q.last());
        assert(join_with(g, sep) == join_with(g.drop_last(), sep) + sep + g.last());
        assert(join_with(q, sep) == join_with(q.drop_last(), sep) + sep + q.last());
        assert(join_with(g, sep) =~= sep + join_with(q, sep));
    }
}

/// Taking a root away: `strip_prefix("/")` succeeds on the paths that start
/// at the root, leaving what follows.
proof fn lemma_strip_root(u: Seq<char>)
    ensures
        strip_path_prefix(u, seq!['/']) == if is_absolute(u) { Some(path_rest(u, 1)) } else { None::<Seq<char>> },
{
    let root = seq!['/'];
    lemma_split_after_slash(Seq::<char>::empty());
    assert(root =~= seq!['/'] + Seq::<char>::empty());
    assert(split_on(Seq::<char>::empty(), '/') =~= seq![Seq::<char>::empty()]);
    let rp = split_on(root, '/');
    assert(rp =~= seq![Seq::<char>::empty(), Seq::<char>::empty()]);
    assert(kept_segments(rp, 2) =~= Seq::<Seq<char>>::empty()) by {
        reveal_with_fuel(kept_segments, 3);
        assert(!keep_segment(1, rp[1]));
        assert(!keep_segment(0, rp[0]));
    }
    assert(rooted_components(root) =~= seq![Seq::<char>::empty()]);
    let up = split_on(u, '/');
    crate::text::lemma_split_on_nonempty(u, '/');
    lemma_kept_indices(up, up.len());
    if !is_absolute(u) {
        let cs = rooted_components(u);
        assert(cs == components(u));
        if cs.len() > 0 {
            let ks = kept_indices(up, up.len());
            assert(cs[0] == up[ks[0]]);
            assert(keep_segment(ks[0], up[ks[0]]));
            assert(cs.take(1)[0] != Seq::<char>::empty());
        }
    } else {
        let cs = rooted_components(u);
        assert(cs.take(1) =~= seq![Seq::<char>::empty()]);
    }
}

proof fn lemma_join_first(q: Seq<Seq<char>>)
    requires
        q.len() > 0,
        q[0].len() > 0,
    ensures
        join_with(q, seq!['/']).len() > 0,
        join_with(q, seq!['/'])[0] == q[0][0],
    decreases q.len(),
{
    if q.len() > 1 {
        lemma_join_first(q.drop_last());
    }
}

/// The directory of a file without its root is the same with a `/` put
/// before the file's path, unless the path starts with a `.` component.
proof fn lemma_relative_dir_slash(f: Seq<char>)
    requires
        split_on(f, '/')[0] != seq!['.'],
    ensures
        relative_dir(seq!['/'] + f) == relative_dir(f),
{
    let sep = seq!['/'];
    let e = Seq::<char>::empty();
    let g = sep + f;
    let p = split_on(f, '/');
    crate::text::lemma_split_on_nonempty(f, '/');
    crate::text::lemma_split_on_pieces(f, '/');
    lemma_split_after_slash(f);
    let gp = split_on(g, '/');
    assert(gp == seq![e] + p);
    lemma_kept_shift(p, p.len());
    lemma_kept_indices(p, p.len());
    let ks = kept_indices(p, p.len());
    let gks = kept_indices(gp, gp.len());
    assert(gks == ks.map_values(|i: int| i + 1));
    let m = ks.len();
    assert(is_absolute(g));
    lemma_strip_root(g);
    lemma_strip_root(f);
    // the root alone
    lemma_split_after_slash(e);
    assert(sep =~= sep + e);
    assert(split_on(e, '/') =~= seq![e]);
    let rp = split_on(sep, '/');
    assert(rp =~= seq![e, e]);
    assert(kept_indices(rp, 2) =~= Seq::<int>::empty()) by {
        reveal_with_fuel(kept_indices, 3);
        assert(!keep_segment(1, rp[1]));
        assert(!keep_segment(0, rp[0]));
    }
    lemma_strip_root(sep);
    assert(path_rest(sep, 1) == e);
    if !is_absolute(f) && f.len() > 0 {
        lemma_first_piece_nonempty(f);
        assert(keep_segment(0, p[0]));
        assert(kept_indices(p, 0) =~= Seq::<int>::empty());
        assert(kept_indices(p, 1) =~= seq![0int]);
        lemma_kept_first(p, 1, p.len());
        assert(ks[0] == 0);
    }
    if m == 0 {
        assert(parent_path(g) is None);
        assert(parent_path(f) is None);
        assert(relative_dir(g) == path_rest(g, 1));
        assert(path_rest(g, 1) == e);
        if !is_absolute(f) {
            assert(f.len() == 0);
            assert(relative_dir(f) == f);
            assert(f =~= e);
        } else {
            assert(relative_dir(f) == path_rest(f, 1));
            assert(path_rest(f, 1) == e);
        }
        assert(relative_dir(g) == relative_dir(f));
    } else if m == 1 {
        assert(parent_path(g) == Some(sep));
        assert(relative_dir(g) == e);
        if is_absolute(f) {
            assert(parent_path(f) == Some(sep));
            assert(relative_dir(f) == path_rest(sep, 1));
        } else {
            assert(parent_path(f) == Some(e));
            assert(!is_absolute(e));
            lemma_strip_root(e);
            assert(relative_dir(f) == e);
        }
        assert(relative_dir(g) == relative_dir(f));
    } else {
        let j = ks[m - 2];
        assert(keep_segment(j, p[j]));
        assert(0 <= j < p.len());
        let q = p.take(j + 1);
        assert(p.subrange(0, j + 1) =~= q);
        let t = join_with(q, sep);
        assert(parent_path(f) == Some(t));
        assert(gks[m - 2] == j + 1);
        assert(gp.subrange(0, j + 2) =~= seq![e] + q);
        lemma_join_after_empty(q);
        assert(parent_path(g) == Some(sep + t));
        assert forall|a: int, b: int| 0 <= a < q.len() && 0 <= b < q[a].len() implies #[trigger] q[a][b] != '/' by {
            assert(q[a] == p[a]);
        }
        lemma_split_join(q);
        assert(split_on(t, '/') == q);
        lemma_split_after_slash(t);
        assert(split_on(sep + t, '/') == seq![e] + q);
        // the components of the directory
        lemma_kept_of_take(p, (j + 1) as nat, (j + 1) as nat);
        let kq = kept_indices(q, q.len());
        assert(kq == kept_indices(p, (j + 1) as nat));
        assert(kept_indices(p, (j + 1) as nat) == kept_indices(p, j as nat).push(j));
        lemma_kept_first(p, (j + 1) as nat, p.len());
        assert(kq.len() > 0 && kq.last() == j && kq[0] == ks[0]);
        lemma_kept_shift(q, q.len());
        let gkq = kept_indices(seq![e] + q, q.len() + 1);
        assert(gkq == kq.map_values(|i: int| i + 1));
        assert(component_positions(sep + t) == gkq);
        assert(component_positions(t) == kq);
        lemma_strip_root(sep + t);
        lemma_strip_root(t);
        assert(is_absolute(sep + t));
        assert(relative_dir(g) == path_rest(sep + t, 1));
        assert(path_rest(sep + t, 1) == join_with((seq![e] + q).subrange(ks[0] + 1, j + 2), sep));
        assert((seq![e] + q).subrange(ks[0] + 1, j + 2) =~= q.subrange(ks[0], j + 1));
        if is_absolute(f) {
            lemma_split_first_piece(f);
            assert(q[0].len() == 0);
            assert(q[0] =~= e);
            assert(q =~= seq![e] + q.skip(1));
            lemma_join_after_empty(q.skip(1));
            assert(is_absolute(t));
            assert(relative_dir(f) == path_rest(t, 1));
            assert(path_rest(t, 1) == join_with(q.subrange(ks[0], j + 1), sep));
        } else {
            lemma_join_first(q);
            assert(!is_absolute(t));
            assert(relative_dir(f) == t);
            assert(q.subrange(0, j + 1) =~= q);
        }
        assert(relative_dir(g) == relative_dir(f));
    }
}

/// A leading `/` on a post's file path does not change its URL path, unless
/// the path starts with a `.` component (which counts only in first place).
pub proof fn law_leading_slash_ignored(
    slug: Option<Seq<char>>,
    file_path: Seq<char>,
    input_directory: Seq<char>,
    blog_prefix_path: Seq<char>,
    encoded: bool,
)
    requires
        split_on(file_path, '/')[0] != seq!['.'],
    ensures
        url_path_for_post(slug, seq!['/'] + file_path, input_directory, blog_prefix_path, encoded)
            == url_path_for_post(slug, file_path, input_directory, blog_prefix_path, encoded),
{
    lemma_relative_dir_slash(file_path);
}

proof fn lemma_split_first_piece(s: Seq<char>)
    requires
        s.len() > 0,
        s[0] == '/',
    ensures
        split_on(s, '/')[0].len() == 0,
        split_on(s, '/').len() >= 2,
    decreases s.len(),
{
    if s.len() == 1 {
        assert(s.drop_last() =~= Seq::<char>::empty());
    } else {
        lemma_split_first_piece(s.drop_last());
    }
}

proof fn lemma_kept_all(segs: Seq<Seq<char>>, n: nat)
    requires
        n <= segs.len(),
        forall|i: int| 0 <= i < segs.len() ==> #[trigger] keep_segment(i, segs[i]),
    ensures
        kept_indices(segs, n) == Seq::new(n, |i: int| i),
    decreases n,
{
    if n > 0 {
        lemma_kept_all(segs, (n - 1) as nat);
        assert(keep_segment(n - 1, segs[n - 1]));
        assert(kept_indices(segs, n) =~= Seq::new(n, |i: int| i));
    }
}

/// For a path written with single slashes between plain names (no empty
/// piece, no `.` or `..`), the names of the directories above a file match
/// their paths: the first path is the first name, and each path is the one
/// before it, `/` and its name.
pub proof fn law_ancestor_names_match_paths(path: Seq<char>)
    requires
        forall|i: int| 0 <= i < path_pieces(path).len() ==> {
            let q = #[trigger] path_pieces(path)[i];
            q.len() > 0 && q != seq!['.'] && q != seq!['.', '.']
        },
    ensures
        ancestor_names(path).len() == ancestor_paths(path).len(),
        ancestor_paths(path).len() > 0 ==> ancestor_paths(path)[0] == ancestor_names(path)[0],
        forall|i: int| 0 < i < ancestor_paths(path).len() ==> #[trigger] ancestor_paths(path)[i]
            == ancestor_paths(path)[i - 1] + seq!['/'] + ancestor_names(path)[i],
        forall|i: int| 0 <= i < ancestor_paths(path).len() ==>
            path_pieces(#[trigger] ancestor_paths(path)[i]).last() == ancestor_names(path)[i],
{
    let p = path_pieces(path);
    crate::text::lemma_split_on_nonempty(path, '/');
    assert forall|i: int| 0 <= i < p.len() implies #[trigger] keep_segment(i, p[i]) by {
        assert(p[i].len() > 0 && p[i] != seq!['.']);
    }
    lemma_kept_all(p, p.len());
    lemma_kept_indices(p, p.len());
    let ks = component_positions(path);
    let c = components(path);
    assert(c =~= p);
    assert(!is_absolute(path)) by {
        if path.len() > 0 && path[0] == '/' {
            assert(p[0].len() > 0);
            crate::text::lemma_split_on_pieces(path, '/');
            assert(p[0][0] != '/');
            lemma_split_first_piece(path);
        }
    }
    lemma_named_plain(c.drop_last());
    let ps = ancestor_paths(path);
    let ns = ancestor_names(path);
    assert(ns == c.drop_last());
    assert(ps =~= Seq::new((p.len() - 1) as nat, |k: int| piece_text(path, 0, k + 1)));
    if ps.len() > 0 {
        assert(p.subrange(0, 1) =~= seq![p[0]]);
        assert(ps[0] =~= p[0]);
    }
    assert forall|i: int| 0 < i < ps.len() implies #[trigger] ps[i] == ps[i - 1] + seq!['/'] + ns[i] by {
        assert(p.subrange(0, i + 1).drop_last() =~= p.subrange(0, i));
        assert(p.subrange(0, i + 1).last() == p[i]);
    }
    crate::text::lemma_split_on_pieces(path, '/');
    assert forall|i: int| 0 <= i < ps.len() implies path_pieces(#[trigger] ps[i]).last() == ns[i] by {
        let q = p.subrange(0, i + 1);
        assert forall|a: int, j: int| 0 <= a < q.len() && 0 <= j < q[a].len() implies #[trigger] q[a][j] != '/' by {
            assert(q[a] == p[a]);
        }
        lemma_split_join(q);
        assert(ps[i] == join_with(q, seq!['/']));
    }
}

/// A character that `form_urlencoded` leaves as it is.
pub open spec fn url_safe_char(c: char) -> bool {
    c == '*' || c == '-' || c == '.' || c == '_' || ('0' <= c <= '9') || ('A' <= c <= 'Z') || ('a' <= c <= 'z')
}

proof fn lemma_url_encode_unchanged(bytes: Seq<u8>, chars: Seq<char>)
    requires
        bytes.len() == chars.len(),
        forall|i: int| 0 <= i < bytes.len() ==> url_unreserved(#[trigger] bytes[i]) && bytes[i] as char == chars[i],
    ensures
        url_encode(bytes) == chars,
    decreases bytes.len(),
{
    if bytes.len() > 0 {
        lemma_url_encode_unchanged(bytes.drop_last(), chars.drop_last());
        assert(url_unreserved(bytes[bytes.len() - 1]));
        assert(chars.drop_last().push(chars.last()) =~= chars);
    }
}

/// URL-encoding leaves a slug made of letters, digits and `*-._` as it is,
/// so the encoded URL path of such a post is its plain one.
pub proof fn law_encoding_keeps_safe_slug(
    slug: Option<Seq<char>>,
    file_path: Seq<char>,
    input_directory: Seq<char>,
    blog_prefix_path: Seq<char>,
)
    requires
        slug matches Some(s) ==> forall|i: int| 0 <= i < s.len() ==> url_safe_char(#[trigger] s[i]),
    ensures
        url_path_for_post(slug, file_path, input_directory, blog_prefix_path, true)
            == url_path_for_post(slug, file_path, input_directory, blog_prefix_path, false),
{
    match slug {
        Some(s) => {
            assert(vstd::utf8::is_ascii_chars(s));
            vstd::utf8::is_ascii_chars_encode_utf8(s);
            let b = vstd::utf8::encode_utf8(s);
            assert forall|i: int| 0 <= i < b.len() implies url_unreserved(#[trigger] b[i]) && b[i] as char == s[i] by {
                assert(s[i] as u8 == b[i]);
                assert(url_safe_char(s[i]));
            }
            lemma_url_encode_unchanged(b, s);
            assert(slug_segment(s, true) == s);
        },
        None => {},
    }
}

/// A post's URL path ends with `/`.
pub proof fn law_url_path_ends_with_slash(
    slug: Option<Seq<char>>,
    file_path: Seq<char>,
    input_directory: Seq<char>,
    blog_prefix_path: Seq<char>,
    encoded: bool,
)
    ensures
        ({
            let u = url_path_for_post(slug, file_path, input_directory, blog_prefix_path, encoded);
            u.len() > 0 && u.last() == '/'
        }),
{
    let p = url_below_prefix(slug, file_path, input_directory, encoded);
    assert(p.len() > 0 && p.last() == '/');
    let u = path_push(blog_prefix_path, p);
    if !is_absolute(p) {
        if blog_prefix_path.len() == 0 || blog_prefix_path.last() == '/' {
            assert(u[u.len() - 1] == p[p.len() - 1]);
        } else {
            assert(u[u.len() - 1] == p[p.len() - 1]);
        }
    }
}

// ---------------------------------------------------------------------------
// Tags and indexes
/// What `slug::slugify` returns for a text (an ASCII transliteration in
/// lower case, runs of other characters turned into one `-`).
pub uninterp spec fn slug_of(s: Seq<char>) -> Seq<char>;

/// A slug: ASCII lower-case letters, digits and `-`.
pub open spec fn slug_chars(s: Seq<char>) -> bool {
    forall|i: int| 0 <= i < s.len() ==> ('a' <= #[trigger] s[i] <= 'z') || ('0' <= s[i] <= '9') || s[i] == '-'
}

/// `slug::slugify`; its documentation promises a result made of `a-z`,
/// `0-9` and `-`.
#[verifier::external_body]
fn slugify_tag(s: &str) -> (r: String)
    ensures
        r@ == slug_of(s@),
        slug_chars(r@),
{
    slug::slugify(s)
}

/// The URL of a tag's page: the prefix, the post's first directory name,
/// `/tags/`, its other directory names joined by `/`, `/` and the tag's slug.
pub open spec fn tag_url(prepend: Seq<char>, names: Seq<Seq<char>>, tag: Seq<char>) -> Seq<char> {
    prepend + names[0] + "/tags/"@ + join_with(names.skip(1), seq!['/']) + seq!['/'] + slug_of(tag)
}

/// Whether some pair has this key.
pub open spec fn has_key<V>(pairs: Seq<(Seq<char>, V)>, key: Seq<char>) -> bool {
    exists|j: int| 0 <= j < pairs.len() && pairs[j].0 == key
}

/// Each distinct tag with its URL, in the order of first occurrence.
pub open spec fn tag_urls(prepend: Seq<char>, names: Seq<Seq<char>>, tags: Seq<Seq<char>>) -> Seq<(Seq<char>, Seq<char>)>
    decreases tags.len(),
{
    if tags.len() == 0 {
        Seq::empty()
    } else {
        let prev = tag_urls(prepend, names, tags.drop_last());
        if has_key(prev, tags.last()) {
            prev
        } else {
            prev.push((tags.last(), tag_url(prepend, names, tags.last())))
        }
    }
}

pub open spec fn pair_views(v: Seq<(String, String)>) -> Seq<(Seq<char>, Seq<char>)> {
    v.map_values(|p: (String, String)| (p.0@, p.1@))
}

pub open spec fn post_tags(post: Post) -> Seq<Seq<char>> {
    match post.front_matter.tags {
        Some(t) => string_views(t@),
        None => Seq::empty(),
    }
}

/// The tags of a post can be turned into URLs: a post with tags has a
/// directory name.
pub open spec fn tags_have_directory(post: Post) -> bool {
    post_tags(post).len() > 0 ==> post.ancestor_directories_names@.len() > 0
}

/// The URL of a tag's page.
fn tag_url_for(prepend: &[char], names: &Vec<String>, tag: &String) -> (r: String)
    requires
        names@.len() > 0,
    ensures
        r@ == tag_url(prepend@, string_views(names@), tag@),
{
    let mut out: Vec<char> = Vec::new();
    push_chars(&mut out, prepend);
    push_str(&mut out, names[0].as_str());
    push_str(&mut out, "/tags/");
    let mut rest: Vec<String> = Vec::new();
    let mut i: usize = 1;
    while i < names.len()
        invariant
            1 <= i <= names@.len(),
            string_views(rest@) == string_views(names@).subrange(1, i as int),
        decreases names@.len() - i,
    {
        let x = names[i].clone();
        assert(string_views(rest@.push(x)) =~= string_views(rest@).push(x@));
        rest.push(x);
        i = i + 1;
        assert(string_views(names@).subrange(1, i as int) =~= string_views(names@).subrange(1, i - 1).push(names@[i - 1]@));
    }
    assert(string_views(names@).subrange(1, i as int) =~= string_views(names@).skip(1));
    let joined = crate::text::join_strings(rest.as_slice(), "/");
    proof {
        reveal_strlit("/");
    }
    assert("/"@ =~= seq!['/']);
    assert(string_views(rest@) == rest@.map_values(|p: String| p@));
    push_str(&mut out, joined.as_str());
    out.push('/');
    let slug = slugify_tag(tag.as_str());
    push_str(&mut out, slug.as_str());
    assert(out@ =~= tag_url(prepend@, string_views(names@), tag@));
    string_of(&out)
}

/// Position of a key among pairs.
fn find_key<V>(pairs: &Vec<(String, V)>, key: &[char]) -> (r: Option<usize>)
    ensures
        match r {
            Some(j) => j < pairs@.len() && pairs@[j as int].0@ == key@,
            None => forall|j: int| 0 <= j < pairs@.len() ==> pairs@[j].0@ != key@,
        },
{
    let mut j: usize = 0;
    while j < pairs.len()
        invariant
            j <= pairs@.len(),
            forall|m: int| 0 <= m < j ==> pairs@[m].0@ != key@,
        decreases pairs@.len() - j,
    {
        let kc = chars_of(pairs[j].0.as_str());
        if chars_eq(&kc, key) {
            return Some(j);
        }
        j = j + 1;
    }
    None
}

/// Each distinct tag of a post with the URL of its page, in the order of first
/// occurrence; the URL starts with `prepend` when given.
fn get_tag_urls_for_post(post: &Post, prepend: Option<&String>) -> (r: Vec<(String, String)>)
    requires
        tags_have_directory(*post),
    ensures
        pair_views(r@) == tag_urls(
            match prepend {
                Some(p) => p@,
                None => Seq::<char>::empty(),
            },
            string_views(post.ancestor_directories_names@),
            post_tags(*post),
        ),
{
    let pre: Vec<char> = match prepend {
        Some(p) => chars_of(p.as_str()),
        None => Vec::new(),
    };
    let ghost names = string_views(post.ancestor_directories_names@);
    let ghost tags = post_tags(*post);
    let mut out: Vec<(String, String)> = Vec::new();
    match &post.front_matter.tags {
        Some(ts) => {
            let mut i: usize = 0;
            while i < ts.len()
                invariant
                    i <= ts@.len(),
                    tags == string_views(ts@),
                    names == string_views(post.ancestor_directories_names@),
                    ts@.len() > 0 ==> post.ancestor_directories_names@.len() > 0,
                    pair_views(out@) == tag_urls(pre@, names, tags.take(i as int)),
                decreases ts@.len() - i,
            {
                let tc = chars_of(ts[i].as_str());
                assert(tags.take(i + 1).drop_last() =~= tags.take(i as int));
                assert(tags.take(i + 1).last() == ts@[i as int]@);
                match find_key(&out, &tc) {
                    Some(j) => {
                        assert(pair_views(out@)[j as int].0 == tc@);
                    },
                    None => {
                        let url = tag_url_for(&pre, &post.ancestor_directories_names, &ts[i]);
                        let pair = (ts[i].clone(), url);
                        assert(pair_views(out@.push(pair)) =~= pair_views(out@).push((pair.0@, pair.1@)));
                        assert(!has_key(pair_views(out@), tc@));
                        out.push(pair);
                    },
                }
                i = i + 1;
            }
            assert(tags.take(i as int) =~= tags);
        },
        None => {},
    }
    out
}

pub open spec fn group_views(v: Seq<(String, Vec<usize>)>) -> Seq<(Seq<char>, Seq<int>)> {
    v.map_values(|p: (String, Vec<usize>)| (p.0@, p.1@.map_values(|i: usize| i as int)))
}

/// Where a key stands among groups, when it does.
pub open spec fn key_index(groups: Seq<(Seq<char>, Seq<int>)>, key: Seq<char>) -> int {
    choose|j: int| 0 <= j < groups.len() && groups[j].0 == key
}

/// Adds a post (by position) to the group of a key: appended to the group's
/// posts if the key has one, else a new group at the end.
pub open spec fn add_to_group(groups: Seq<(Seq<char>, Seq<int>)>, key: Seq<char>, i: int) -> Seq<(Seq<char>, Seq<int>)> {
    if has_key(groups, key) {
        let j = key_index(groups, key);
        groups.update(j, (key, groups[j].1.push(i)))
    } else {
        groups.push((key, seq![i]))
    }
}

/// Adds a post to the group of each key, in order.
pub open spec fn add_to_groups(groups: Seq<(Seq<char>, Seq<int>)>, keys: Seq<Seq<char>>, i: int) -> Seq<(Seq<char>, Seq<int>)>
    decreases keys.len(),
{
    if keys.len() == 0 {
        groups
    } else {
        add_to_group(add_to_groups(groups, keys.drop_last(), i), keys.last(), i)
    }
}

/// The keys of groups are distinct.
pub open spec fn distinct_keys<V>(groups: Seq<(Seq<char>, V)>) -> bool {
    forall|a: int, b: int| 0 <= a < groups.len() && 0 <= b < groups.len() && a != b ==> groups[a].0 != groups[b].0
}

/// Adds a post to a group.
fn group_push(groups: &mut Vec<(String, Vec<usize>)>, key: String, i: usize)
    requires
        distinct_keys(group_views(old(groups)@)),
    ensures
        group_views(final(groups)@) == add_to_group(group_views(old(groups)@), key@, i as int),
        distinct_keys(group_views(final(groups)@)),
{
    let ghost g = group_views(groups@);
    let kc = chars_of(key.as_str());
    match find_key(groups, &kc) {
        Some(j) => {
            assert(g[j as int].0 == key@);
            let ghost jj = key_index(g, key@);
            assert(jj == j as int);
            let ghost before = groups@;
            let (k, mut v) = groups.remove(j);
            let ghost vold = v@;
            assert(k@ == key@);
            assert(vold.map_values(|x: usize| x as int) == g[j as int].1);
            v.push(i);
            assert(v@.map_values(|x: usize| x as int) =~= vold.map_values(|x: usize| x as int).push(i as int));
            groups.insert(j, (k, v));
            assert(groups@ =~= before.update(j as int, groups@[j as int]));
            assert(group_views(groups@) =~= g.update(j as int, (key@, g[j as int].1.push(i as int))));
        },
        None => {
            assert(!has_key(g, key@));
            let mut v: Vec<usize> = Vec::new();
            v.push(i);
            assert(v@.map_values(|x: usize| x as int) =~= seq![i as int]);
            groups.push((key, v));
            assert(group_views(groups@) =~= g.push((key@, seq![i as int])));
        },
    }
}

/// The URL of each tag of a post (without a prefix), in tag order.
pub open spec fn tag_keys(post: Post) -> Seq<Seq<char>> {
    post_tags(post).map_values(|t: Seq<char>| tag_url(Seq::empty(), string_views(post.ancestor_directories_names@), t))
}

/// The posts of each tag page, by the tag page's URL: each post is added to
/// the group of each of its tags, in order.
pub open spec fn posts_per_tags(posts: Seq<Post>, n: nat) -> Seq<(Seq<char>, Seq<int>)>
    decreases n,
{
    if n == 0 {
        Seq::empty()
    } else {
        add_to_groups(posts_per_tags(posts, (n - 1) as nat), tag_keys(posts[n - 1]), n - 1)
    }
}

/// Whether the group of `key` lists the post at position `i`.
pub open spec fn listed(groups: Seq<(Seq<char>, Seq<int>)>, key: Seq<char>, i: int) -> bool {
    exists|j: int| 0 <= j < groups.len() && groups[j].0 == key && #[trigger] groups[j].1.contains(i)
}

proof fn lemma_add_to_group_lists(groups: Seq<(Seq<char>, Seq<int>)>, key: Seq<char>, i: int)
    ensures
        listed(add_to_group(groups, key, i), key, i),
        forall|k: Seq<char>, x: int| listed(groups, k, x) ==> #[trigger] listed(add_to_group(groups, key, i), k, x),
{
    let g = add_to_group(groups, key, i);
    if has_key(groups, key) {
        let j = key_index(groups, key);
        assert(g[j].1 == groups[j].1.push(i));
        assert(g[j].1[g[j].1.len() - 1] == i);
        assert(g[j].1.contains(i));
        assert forall|k: Seq<char>, x: int| listed(groups, k, x) implies #[trigger] listed(g, k, x) by {
            let w = choose|w: int| 0 <= w < groups.len() && groups[w].0 == k && #[trigger] groups[w].1.contains(x);
            let q = choose|q: int| 0 <= q < groups[w].1.len() && groups[w].1[q] == x;
            if w == j {
                assert(g[w].1[q] == x);
            } else {
                assert(g[w] == groups[w]);
            }
            assert(g[w].1.contains(x));
        }
    } else {
        assert(g[groups.len() as int] == (key, seq![i]));
        assert(seq![i][0] == i);
        assert(g[groups.len() as int].1.contains(i));
        assert forall|k: Seq<char>, x: int| listed(groups, k, x) implies #[trigger] listed(g, k, x) by {
            let w = choose|w: int| 0 <= w < groups.len() && groups[w].0 == k && #[trigger] groups[w].1.contains(x);
            assert(g[w] == groups[w]);
        }
    }
}

proof fn lemma_add_to_groups_lists(groups: Seq<(Seq<char>, Seq<int>)>, keys: Seq<Seq<char>>, i: int)
    ensures
        forall|t: int| 0 <= t < keys.len() ==> listed(add_to_groups(groups, keys, i), #[trigger] keys[t], i),
        forall|k: Seq<char>, x: int| listed(groups, k, x) ==> #[trigger] listed(add_to_groups(groups, keys, i), k, x),
    decreases keys.len(),
{
    if keys.len() > 0 {
        let prev = add_to_groups(groups, keys.drop_last(), i);
        lemma_add_to_groups_lists(groups, keys.drop_last(), i);
        lemma_add_to_group_lists(prev, keys.last(), i);
        assert forall|t: int| 0 <= t < keys.len() implies listed(add_to_groups(groups, keys, i), #[trigger] keys[t], i) by {
            if t < keys.len() - 1 {
                assert(keys.drop_last()[t] == keys[t]);
                assert(listed(prev, keys[t], i));
            }
        }
    }
}

/// Every post is listed on the page of each of its tags.
pub proof fn law_posts_listed_under_their_tags(posts: Seq<Post>, n: nat)
    requires
        n <= posts.len(),
    ensures
        forall|m: int, t: int| 0 <= m < n && 0 <= t < tag_keys(posts[m]).len() ==>
            listed(posts_per_tags(posts, n), #[trigger] tag_keys(posts[m])[t], m),
    decreases n,
{
    if n > 0 {
        law_posts_listed_under_their_tags(posts, (n - 1) as nat);
        let prev = posts_per_tags(posts, (n - 1) as nat);
        lemma_add_to_groups_lists(prev, tag_keys(posts[n - 1]), n - 1);
        assert forall|m: int, t: int| 0 <= m < n && 0 <= t < tag_keys(posts[m]).len() implies
            listed(posts_per_tags(posts, n), #[trigger] tag_keys(posts[m])[t], m) by {
            if m < n - 1 {
                assert(listed(prev, tag_keys(posts[m])[t], m));
            }
        }
    }
}

/// The tag pages are those that the posts link to: each post is listed in
/// the group keyed by the URL of each of its tags without a prefix, a URL
/// that ends with `/` and the tag's slug; and a post page's link to a tag
/// is that URL behind the page's prefix.
pub proof fn law_tag_groups_are_the_linked_pages(posts: Seq<Post>, prefix: Seq<char>)
    ensures
        forall|m: int, t: int| 0 <= m < posts.len() && 0 <= t < post_tags(posts[m]).len() ==>
            listed(
                posts_per_tags(posts, posts.len()),
                tag_url(Seq::empty(), string_views(posts[m].ancestor_directories_names@), #[trigger] post_tags(posts[m])[t]),
                m,
            ),
        forall|names: Seq<Seq<char>>, tag: Seq<char>|
            #[trigger] tag_url(prefix, names, tag) == prefix + tag_url(Seq::empty(), names, tag),
        forall|names: Seq<Seq<char>>, tag: Seq<char>| {
            let u = #[trigger] tag_url(Seq::empty(), names, tag);
            let n = slug_of(tag).len();
            &&& u.len() > n
            &&& u.subrange(u.len() - n - 1, u.len() as int) == seq!['/'] + slug_of(tag)
        },
{
    law_posts_listed_under_their_tags(posts, posts.len());
    assert forall|m: int, t: int| 0 <= m < posts.len() && 0 <= t < post_tags(posts[m]).len() implies
        listed(
            posts_per_tags(posts, posts.len()),
            tag_url(Seq::empty(), string_views(posts[m].ancestor_directories_names@), #[trigger] post_tags(posts[m])[t]),
            m,
        ) by {
        assert(tag_keys(posts[m])[t] == tag_url(Seq::empty(), string_views(posts[m].ancestor_directories_names@), post_tags(posts[m])[t]));
    }
    assert forall|names: Seq<Seq<char>>, tag: Seq<char>|
        #[trigger] tag_url(prefix, names, tag) == prefix + tag_url(Seq::empty(), names, tag) by {
        assert(tag_url(prefix, names, tag) =~= prefix + tag_url(Seq::empty(), names, tag));
    }
    assert forall|names: Seq<Seq<char>>, tag: Seq<char>| {
        let u = #[trigger] tag_url(Seq::empty(), names, tag);
        let n = slug_of(tag).len();
        &&& u.len() > n
        &&& u.subrange(u.len() - n - 1, u.len() as int) == seq!['/'] + slug_of(tag)
    } by {
        let u = tag_url(Seq::empty(), names, tag);
        let stem = Seq::<char>::empty() + names[0] + "/tags/"@ + join_with(names.skip(1), seq!['/']);
        assert(u == stem + (seq!['/'] + slug_of(tag)));
        assert(u.subrange(u.len() - slug_of(tag).len() - 1, u.len() as int) =~= seq!['/'] + slug_of(tag));
    }
}

/// The posts (by position) of each tag page, keyed by the tag page's URL.
pub fn get_posts_per_tags(posts: &[Post]) -> (r: Vec<(String, Vec<usize>)>)
    requires
        forall|i: int| 0 <= i < posts@.len() ==> tags_have_directory(#[trigger] posts@[i]),
    ensures
        group_views(r@) == posts_per_tags(posts@, posts@.len()),
        distinct_keys(group_views(r@)),
{
    let mut groups: Vec<(String, Vec<usize>)> = Vec::new();
    let empty: Vec<char> = Vec::new();
    let mut i: usize = 0;
    assert(group_views(groups@) =~= Seq::<(Seq<char>, Seq<int>)>::empty());
    while i < posts.len()
        invariant
            i <= posts@.len(),
            forall|m: int| 0 <= m < posts@.len() ==> tags_have_directory(#[trigger] posts@[m]),
            empty@.len() == 0,
            group_views(groups@) == posts_per_tags(posts@, i as nat),
            distinct_keys(group_views(groups@)),
        decreases posts@.len() - i,
    {
        let post = &posts[i];
        assert(tags_have_directory(posts@[i as int]));
        let ghost keys = tag_keys(*post);
        let ghost base = group_views(groups@);
        match &post.front_matter.tags {
            Some(ts) => {
                let mut t: usize = 0;
                while t < ts.len()
                    invariant
                        t <= ts@.len(),
                        post_tags(*post) == string_views(ts@),
                        keys == tag_keys(*post),
                        ts@.len() > 0 ==> post.ancestor_directories_names@.len() > 0,
                        empty@.len() == 0,
                        group_views(groups@) == add_to_groups(base, keys.take(t as int), i as int),
                        distinct_keys(group_views(groups@)),
                    decreases ts@.len() - t,
                {
                    let key = tag_url_for(&empty, &post.ancestor_directories_names, &ts[t]);
                    assert(empty@ =~= Seq::<char>::empty());
                    assert(keys.take(t + 1).drop_last() =~= keys.take(t as int));
                    assert(keys.take(t + 1).last() == key@);
                    group_push(&mut groups, key, i);
                    t = t + 1;
                }
                assert(keys.take(t as int) =~= keys);
            },
            None => {
                assert(keys =~= Seq::<Seq<char>>::empty());
            },
        }
        i = i + 1;
    }
    groups
}

/// The part of a directory's path after the posts directory, if the path
/// starts with it (`str::strip_prefix`).
pub open spec fn strip_prefix(s: Seq<char>, prefix: Seq<char>) -> Option<Seq<char>> {
    if prefix.len() <= s.len() && s.take(prefix.len() as int) == prefix {
        Some(s.skip(prefix.len() as int))
    } else {
        None
    }
}

/// The indexes a post belongs to: for each directory above it, its path
/// below the posts directory, when that is not empty and an index is made
/// for it.
pub open spec fn index_keys(dirs: Seq<Seq<char>>, posts_path: Seq<char>, create_index_for: Seq<Seq<char>>) -> Seq<Seq<char>>
    decreases dirs.len(),
{
    if dirs.len() == 0 {
        Seq::empty()
    } else {
        let prev = index_keys(dirs.drop_last(), posts_path, create_index_for);
        match strip_prefix(dirs.last(), posts_path) {
            Some(rest) => if rest.len() > 0 && create_index_for.contains(rest) {
                prev.push(rest)
            } else {
                prev
            },
            None => prev,
        }
    }
}

/// The posts of each index page, by the index: each post is added to the
/// group of each index it belongs to, in order.
pub open spec fn posts_per_indexes(posts: Seq<Post>, n: nat, posts_path: Seq<char>, create_index_for: Seq<Seq<char>>) -> Seq<(Seq<char>, Seq<int>)>
    decreases n,
{
    if n == 0 {
        Seq::empty()
    } else {
        add_to_groups(
            posts_per_indexes(posts, (n - 1) as nat, posts_path, create_index_for),
            index_keys(string_views(posts[n - 1].ancestor_directories_paths@), posts_path, create_index_for),
            n - 1,
        )
    }
}

/// The keys of the index pages that list a post: the directories above it,
/// below the posts' directory, that are in `create_index_for`.
pub open spec fn post_index_keys(post: Post, posts_path: Seq<char>, create_index_for: Seq<Seq<char>>) -> Seq<Seq<char>> {
    index_keys(string_views(post.ancestor_directories_paths@), posts_path, create_index_for)
}

/// Every post is listed on the index page of each directory above it that
/// is to have an index.
pub proof fn law_posts_listed_under_their_indexes(
    posts: Seq<Post>,
    n: nat,
    posts_path: Seq<char>,
    create_index_for: Seq<Seq<char>>,
)
    requires
        n <= posts.len(),
    ensures
        forall|m: int, t: int| 0 <= m < n && 0 <= t < post_index_keys(posts[m], posts_path, create_index_for).len() ==>
            listed(
                posts_per_indexes(posts, n, posts_path, create_index_for),
                #[trigger] post_index_keys(posts[m], posts_path, create_index_for)[t],
                m,
            ),
    decreases n,
{
    if n > 0 {
        law_posts_listed_under_their_indexes(posts, (n - 1) as nat, posts_path, create_index_for);
        let prev = posts_per_indexes(posts, (n - 1) as nat, posts_path, create_index_for);
        lemma_add_to_groups_lists(prev, post_index_keys(posts[n - 1], posts_path, create_index_for), n - 1);
        assert forall|m: int, t: int| 0 <= m < n && 0 <= t < post_index_keys(posts[m], posts_path, create_index_for).len() implies
            listed(
                posts_per_indexes(posts, n, posts_path, create_index_for),
                #[trigger] post_index_keys(posts[m], posts_path, create_index_for)[t],
                m,
            ) by {
            if m < n - 1 {
                assert(listed(prev, post_index_keys(posts[m], posts_path, create_index_for)[t], m));
            }
        }
    }
}

/// Whether a string is among strings.
fn contains_string(list: &Vec<String>, s: &[char]) -> (r: bool)
    ensures
        r == string_views(list@).contains(s@),
{
    let mut j: usize = 0;
    while j < list.len()
        invariant
            j <= list@.len(),
            forall|m: int| 0 <= m < j ==> list@[m]@ != s@,
        decreases list@.len() - j,
    {
        let c = chars_of(list[j].as_str());
        if chars_eq(&c, s) {
            assert(string_views(list@)[j as int] == s@);
            return true;
        }
        j = j + 1;
    }
    assert forall|m: int| 0 <= m < list@.len() implies string_views(list@)[m] != s@ by {
        assert(string_views(list@)[m] == list@[m]@);
    }
    false
}

/// `str::strip_prefix`.
fn strip_prefix_chars(s: &[char], prefix: &[char]) -> (r: Option<Vec<char>>)
    ensures
        match r {
            Some(rest) => strip_prefix(s@, prefix@) == Some(rest@),
            None => strip_prefix(s@, prefix@) is None,
        },
{
    if prefix.len() > s.len() {
        return None;
    }
    let mut k: usize = 0;
    while k < prefix.len()
        invariant
            k <= prefix@.len() <= s@.len(),
            forall|m: int| 0 <= m < k ==> s@[m] == prefix@[m],
        decreases prefix@.len() - k,
    {
        if s[k] != prefix[k] {
            assert(s@.take(prefix@.len() as int)[k as int] == s@[k as int]);
            return None;
        }
        k = k + 1;
    }
    assert(s@.take(prefix@.len() as int) =~= prefix@);
    let mut rest: Vec<char> = Vec::new();
    let mut j: usize = prefix.len();
    while j < s.len()
        invariant
            prefix@.len() <= j <= s@.len(),
            rest@ == s@.subrange(prefix@.len() as int, j as int),
        decreases s@.len() - j,
    {
        rest.push(s[j]);
        j = j + 1;
        assert(rest@ =~= s@.subrange(prefix@.len() as int, j as int));
    }
    assert(rest@ =~= s@.skip(prefix@.len() as int));
    Some(rest)
}

/// The posts (by position) of each index page, keyed by the index: the
/// directories above a post, below the posts directory, for which an index
/// is made.
pub fn get_posts_per_indexes(posts: &[Post], settings: &Settings) -> (r: Vec<(String, Vec<usize>)>)
    ensures
        group_views(r@) == posts_per_indexes(posts@, posts@.len(), settings.posts_path@, string_views(settings.create_index_for@)),
        distinct_keys(group_views(r@)),
{
    let ghost pp = settings.posts_path@;
    let ghost cif = string_views(settings.create_index_for@);
    let prefix = chars_of(settings.posts_path.as_str());
    let mut groups: Vec<(String, Vec<usize>)> = Vec::new();
    let mut i: usize = 0;
    assert(group_views(groups@) =~= Seq::<(Seq<char>, Seq<int>)>::empty());
    while i < posts.len()
        invariant
            i <= posts@.len(),
            prefix@ == pp,
            pp == settings.posts_path@,
            cif == string_views(settings.create_index_for@),
            group_views(groups@) == posts_per_indexes(posts@, i as nat, pp, cif),
            distinct_keys(group_views(groups@)),
        decreases posts@.len() - i,
    {
        let post = &posts[i];
        let dirs = &post.ancestor_directories_paths;
        let ghost dv = string_views(dirs@);
        let ghost base = group_views(groups@);
        let mut d: usize = 0;
        while d < dirs.len()
            invariant
                d <= dirs@.len(),
                dv == string_views(dirs@),
                prefix@ == pp,
                cif == string_views(settings.create_index_for@),
                group_views(groups@) == add_to_groups(base, index_keys(dv.take(d as int), pp, cif), i as int),
                distinct_keys(group_views(groups@)),
            decreases dirs@.len() - d,
        {
            let dc = chars_of(dirs[d].as_str());
            assert(dv.take(d + 1).drop_last() =~= dv.take(d as int));
            assert(dv.take(d + 1).last() == dc@);
            match strip_prefix_chars(&dc, &prefix) {
                Some(rest) => {
                    if rest.len() > 0 && contains_string(&settings.create_index_for, &rest) {
                        let ghost ks = index_keys(dv.take(d as int), pp, cif);
                        assert(index_keys(dv.take(d + 1), pp, cif) == ks.push(rest@));
                        assert(ks.push(rest@).drop_last() =~= ks);
                        let key = string_of(&rest);
                        group_push(&mut groups, key, i);
                    }
                },
                None => {},
            }
            d = d + 1;
        }
        assert(dv.take(d as int) =~= dv);
        i = i + 1;
    }
    groups
}


// ---------------------------------------------------------------------------
// Markdown
/// Converts Markdown to HTML: headings get an id (the one in their
/// attributes, else their GitHub-style anchor), code blocks their opening and
/// closing HTML and escaped content.
pub fn convert_md_to_html(md_content: &str, settings: &Settings, path: Option<&str>) -> (r: String)
    requires
        heading_ends(md_events(md_content@, false), md_events(md_content@, false).len()) < i32::MAX,
    ensures
        r@ == pulldown_html(md_content@, false, transform(false, md_events(md_content@, false))),
{
    convert_markdown(false, false, md_content, settings, path)
}

/// Whether a Markdown text has fewer than `i32::MAX` headings.
pub open spec fn fits(md: Seq<char>) -> bool {
    heading_ends(md_events(md, false), md_events(md, false).len()) < i32::MAX
}

/// The HTML of a Markdown text, as `convert_md_to_html` writes it.
pub open spec fn md_html(md: Seq<char>) -> Seq<char> {
    pulldown_html(md, false, transform(false, md_events(md, false)))
}

/// `convert_md_to_html` on a text with fewer than `i32::MAX` headings;
/// `None` for a text with more, on which the anchor counters would overflow.
pub fn checked_convert_md_to_html(md_content: &str, settings: &Settings, path: Option<&str>) -> (r: Option<String>)
    ensures
        match r {
            Some(h) => fits(md_content@) && h@ == md_html(md_content@),
            None => !fits(md_content@),
        },
{
    if headings_fit(md_content, false) {
        Some(convert_md_to_html(md_content, settings, path))
    } else {
        None
    }
}

// ---------------------------------------------------------------------------
// Pages
/// What `strip_markdown::strip_markdown` returns for a text.
pub uninterp spec fn stripped_markdown(md: Seq<char>) -> Seq<char>;

/// `strip_markdown::strip_markdown`.
#[verifier::external_body]
fn strip_markdown_text(md: &str) -> (r: String)
    ensures
        r@ == stripped_markdown(md@),
{
    strip_markdown::strip_markdown(md)
}

/// What `pulldown_cmark_toc::TableOfContents::new(text).to_cmark()` returns:
/// the table of contents of a Markdown text, as Markdown.
pub uninterp spec fn toc_markdown(md: Seq<char>) -> Seq<char>;

/// `pulldown_cmark_toc::TableOfContents::new(text).to_cmark()`.
#[verifier::external_body]
fn table_of_contents(md: &str) -> (r: String)
    ensures
        r@ == toc_markdown(md@),
{
    pulldown_cmark_toc::TableOfContents::new(md).to_cmark()
}

/// What the page of a post shows, and where it goes.
#[derive(Debug)]
pub struct PostPage {
    pub output_directory: String,
    pub title: String,
    pub created_at: String,
    pub updated_at: Option<String>,
    pub post_content: String,
    pub url_path: String,
    pub tags_urls: Vec<(String, String)>,
    pub category: Option<String>,
    pub categories: Vec<String>,
    pub toc: Option<String>,
    pub description: String,
}

/// Whether a post's table of contents is shown.
pub open spec fn shows_toc(post: Post) -> bool {
    post.front_matter.toc == Some(true)
}

/// The Markdown of a post can be converted: it, and its table of contents
/// when shown, have fewer than `i32::MAX` headings.
pub open spec fn post_converts(post: Post) -> bool {
    fits(post.content@) && (shows_toc(post) ==> fits(toc_markdown(post.content@)))
}

/// The page of a post: its title, dates (RFC 3339), HTML, URL path, tag pages
/// sorted by tag, category, directory names, table of contents (when asked
/// for), description (the excerpt without Markdown, else the title) and the
/// directory it goes to.
pub open spec fn post_page_is(page: PostPage, post: Post, settings: Settings) -> bool {
    let fm = post.front_matter;
    &&& page.output_directory@ == output_directory_for(settings.output_path@, post.url_path@)
    &&& page.title@ == fm.title@
    &&& page.created_at@ == crate::post::rfc3339_text(fm.date)
    &&& opt_view(page.updated_at) == match fm.updated_at {
        Some(d) => Some(crate::post::rfc3339_text(d)),
        None => None,
    }
    &&& page.post_content@ == md_html(post.content@)
    &&& page.url_path@ == post.url_path@
    &&& pair_views(page.tags_urls@) == crate::sort::sort_pairs(
        tag_urls(settings.blog_prefix_path@ + seq!['/'], string_views(post.ancestor_directories_names@), post_tags(post)),
    )
    &&& opt_view(page.category) == opt_view(fm.category)
    &&& string_views(page.categories@) == string_views(post.ancestor_directories_names@)
    &&& opt_view(page.toc) == if shows_toc(post) {
        Some(md_html(toc_markdown(post.content@)))
    } else {
        None
    }
    &&& page.description@ == match post.excerpt {
        Some(e) => stripped_markdown(e@),
        None => fm.title@,
    }
}

/// A post's page shows its front matter: the title and category written
/// there, the date of creation in RFC 3339, and a date of update only when
/// the front matter has one, then that date in RFC 3339 (so it differs from
/// the date of creation whenever their texts differ).
pub proof fn law_post_page_shows_front_matter(page: PostPage, post: Post, settings: Settings)
    requires
        post_page_is(page, post, settings),
    ensures
        page.title@ == post.front_matter.title@,
        opt_view(page.category) == opt_view(post.front_matter.category),
        page.created_at@ == crate::post::rfc3339_text(post.front_matter.date),
        (page.updated_at is Some) <==> (post.front_matter.updated_at is Some),
        post.front_matter.updated_at matches Some(d) ==> (page.updated_at matches Some(u)
            && u@ == crate::post::rfc3339_text(d)),
        (post.front_matter.updated_at matches Some(d)
            && crate::post::rfc3339_text(d) != crate::post::rfc3339_text(post.front_matter.date))
            ==> (page.updated_at matches Some(u) && u@ != page.created_at@),
{
}

fn clone_strings(v: &Vec<String>) -> (r: Vec<String>)
    ensures
        string_views(r@) == string_views(v@),
{
    let mut out: Vec<String> = Vec::new();
    let mut i: usize = 0;
    while i < v.len()
        invariant
            i <= v@.len(),
            string_views(out@) == string_views(v@).take(i as int),
        decreases v@.len() - i,
    {
        let x = v[i].clone();
        assert(string_views(out@.push(x)) =~= string_views(out@).push(x@));
        out.push(x);
        i = i + 1;
        assert(string_views(v@).take(i as int) =~= string_views(v@).take(i - 1).push(v@[i - 1]@));
    }
    assert(string_views(v@).take(i as int) =~= string_views(v@));
    out
}

fn clone_opt_string(s: &Option<String>) -> (r: Option<String>)
    ensures
        opt_view(r) == opt_view(*s),
{
    match s {
        Some(x) => Some(x.clone()),
        None => None,
    }
}

/// The page of a post; `None` when its Markdown has too many headings to
/// convert.
pub fn post_page(post: &Post, settings: &Settings) -> (r: Option<PostPage>)
    requires
        post.wf(),
        tags_have_directory(*post),
    ensures
        r is Some <==> post_converts(*post),
        r matches Some(page) ==> post_page_is(page, *post, *settings),
{
    let html_content = match checked_convert_md_to_html(post.content.as_str(), settings, Some(post.path.as_str())) {
        Some(h) => h,
        None => return None,
    };
    let toc = match post.front_matter.toc {
        Some(true) => {
            let table = table_of_contents(post.content.as_str());
            match checked_convert_md_to_html(table.as_str(), settings, Some(post.path.as_str())) {
                Some(h) => Some(h),
                None => return None,
            }
        },
        _ => None,
    };
    let mut prefix: Vec<char> = chars_of(settings.blog_prefix_path.as_str());
    prefix.push('/');
    let prefix_s = string_of(&prefix);
    let tag_urls = get_tag_urls_for_post(post, Some(&prefix_s));
    // Always sort by the key
    let tags_urls = crate::sort::sort_pairs_by_key(tag_urls);
    assert(pair_views(tag_urls@) =~= crate::sort::pairs_view(tag_urls@));
    assert(pair_views(tags_urls@) =~= crate::sort::pairs_view(tags_urls@));
    assert(prefix_s@ == settings.blog_prefix_path@ + seq!['/']);
    let fm = &post.front_matter;
    let created_at = crate::post::date_to_rfc3339(&fm.date);
    let updated_at = match &fm.updated_at {
        Some(d) => Some(crate::post::date_to_rfc3339(d)),
        None => None,
    };
    let description = match &post.excerpt {
        Some(e) => strip_markdown_text(e.as_str()),
        None => fm.title.clone(),
    };
    let output_directory = get_output_directory_for_post(settings.output_path.clone(), post);
    assert(opt_view(toc) == if shows_toc(*post) {
        Some(md_html(toc_markdown(post.content@)))
    } else {
        None
    });
    Some(PostPage {
        output_directory,
        title: fm.title.clone(),
        created_at,
        updated_at,
        post_content: html_content,
        url_path: post.url_path.clone(),
        tags_urls,
        category: clone_opt_string(&fm.category),
        categories: clone_strings(&post.ancestor_directories_names),
        toc,
        description,
    })
}

/// The pages of the posts, in order; `None` when a post's Markdown has too
/// many headings to convert.
pub fn write_posts_html(posts: &[Post], settings: &Settings) -> (r: Option<Vec<PostPage>>)
    requires
        forall|i: int| 0 <= i < posts@.len() ==> (#[trigger] posts@[i]).wf() && tags_have_directory(posts@[i]),
    ensures
        r is Some <==> forall|i: int| 0 <= i < posts@.len() ==> post_converts(#[trigger] posts@[i]),
        r matches Some(pages) ==> pages@.len() == posts@.len()
            && forall|i: int| 0 <= i < posts@.len() ==> post_page_is(#[trigger] pages@[i], posts@[i], *settings),
{
    let mut pages: Vec<PostPage> = Vec::new();
    let mut i: usize = 0;
    while i < posts.len()
        invariant
            i <= posts@.len(),
            forall|k: int| 0 <= k < posts@.len() ==> (#[trigger] posts@[k]).wf() && tags_have_directory(posts@[k]),
            forall|k: int| 0 <= k < i ==> post_converts(#[trigger] posts@[k]),
            pages@.len() == i,
            forall|k: int| 0 <= k < i ==> post_page_is(#[trigger] pages@[k], posts@[k], *settings),
        decreases posts@.len() - i,
    {
        assert(posts@[i as int].wf() && tags_have_directory(posts@[i as int]));
        match post_page(&posts[i], settings) {
            Some(page) => pages.push(page),
            None => return None,
        }
        i = i + 1;
    }
    Some(pages)
}

/// The page listing the posts of an index (a category or a tag).
#[derive(Debug)]
pub struct IndexPage {
    /// The posts, by position, newest first.
    pub posts: Vec<usize>,
    /// The names in the index's path.
    pub categories: Vec<String>,
    pub title: String,
    /// The tag, for a tag page: what follows the last `/` of the index.
    pub tag_name: Option<String>,
    pub url_path: String,
    pub output_directory: String,
}

/// The non-empty pieces of a path between slashes.
pub open spec fn nonempty_parts(parts: Seq<Seq<char>>) -> Seq<Seq<char>>
    decreases parts.len(),
{
    if parts.len() == 0 {
        Seq::empty()
    } else if parts.last().len() == 0 {
        nonempty_parts(parts.drop_last())
    } else {
        nonempty_parts(parts.drop_last()).push(parts.last())
    }
}

/// What follows the last `/` of a text, or all of it.
pub open spec fn after_last_slash(s: Seq<char>) -> Seq<char>
    decreases s.len(),
{
    if s.len() == 0 {
        s
    } else if s.last() == '/' {
        Seq::empty()
    } else {
        after_last_slash(s.drop_last()).push(s.last())
    }
}

/// A date as a number that orders dates as chrono does: by the second, then
/// by the nanosecond (which stays below two seconds' worth).
pub open spec fn date_order_key(d: PostDate) -> int {
    d.timestamp * 2_000_000_000 + d.nanosecond
}

/// The dates of posts, as order keys.
pub open spec fn post_date_keys(posts: Seq<Post>) -> Seq<int> {
    posts.map_values(|p: Post| date_order_key(p.front_matter.date))
}

/// The order key of a date.
pub fn date_key(d: &PostDate) -> (r: i128)
    ensures
        r == date_order_key(*d),
{
    d.timestamp as i128 * 2_000_000_000 + d.nanosecond as i128
}

/// The page of an index: its posts newest first (posts with the same date
/// in their order), the names in its path, the title `Articles - ` and the
/// index, the tag when `display_tag_header`, and where it goes.
pub open spec fn index_page_is(page: IndexPage, index: Seq<char>, group: Seq<int>, posts: Seq<Post>, settings: Settings, display_tag_header: bool) -> bool {
    &&& page.posts@.map_values(|i: usize| i as int) == crate::sort::sort_by_key(post_date_keys(posts), group, true)
    &&& string_views(page.categories@) == nonempty_parts(split_on(index, '/'))
    &&& page.title@ == "Articles - "@ + index
    &&& opt_view(page.tag_name) == if display_tag_header { Some(after_last_slash(index)) } else { None }
    &&& page.url_path@ == index
    &&& page.output_directory@ == settings.output_path@ + seq!['/'] + settings.blog_prefix_path@ + seq!['/'] + index
}

/// An index page lists the posts of its group newest first, each as often
/// as the group holds it.
pub proof fn law_index_newest_first(
    page: IndexPage,
    index: Seq<char>,
    group: Seq<int>,
    posts: Seq<Post>,
    settings: Settings,
    display_tag_header: bool,
)
    requires
        index_page_is(page, index, group, posts, settings, display_tag_header),
    ensures
        crate::sort::sorted_by_key(post_date_keys(posts), page.posts@.map_values(|i: usize| i as int), true),
        page.posts@.map_values(|i: usize| i as int).to_multiset() == group.to_multiset(),
{
    crate::sort::lemma_sort_by_key(post_date_keys(posts), group, true);
}

/// The page of an index.
pub fn index_page(index: &String, group: &Vec<usize>, posts: &[Post], settings: &Settings, display_tag_header: bool) -> (r: IndexPage)
    requires
        forall|i: int| 0 <= i < group@.len() ==> #[trigger] group@[i] < posts@.len(),
    ensures
        index_page_is(r, index@, group@.map_values(|i: usize| i as int), posts@, *settings, display_tag_header),
        forall|i: int| 0 <= i < r.posts@.len() ==> #[trigger] r.posts@[i] < posts@.len(),
{
    let mut keys: Vec<i128> = Vec::new();
    let mut i: usize = 0;
    while i < posts.len()
        invariant
            i <= posts@.len(),
            keys@.map_values(|k: i128| k as int) == post_date_keys(posts@).take(i as int),
            keys@.len() == i,
        decreases posts@.len() - i,
    {
        keys.push(date_key(&posts[i].front_matter.date));
        i = i + 1;
        assert(keys@.map_values(|k: i128| k as int) =~= post_date_keys(posts@).take(i as int));
    }
    assert(post_date_keys(posts@).take(i as int) =~= post_date_keys(posts@));
    let sorted = crate::sort::sort_positions(&keys, group, true);
    let ic = chars_of(index.as_str());
    let parts = split_chars(&ic, '/');
    let ghost ps = split_on(ic@, '/');
    let mut categories: Vec<String> = Vec::new();
    let mut k: usize = 0;
    while k < parts.len()
        invariant
            k <= parts@.len(),
            parts@.len() == ps.len(),
            forall|m: int| 0 <= m < parts@.len() ==> (#[trigger] parts@[m])@ == ps[m],
            string_views(categories@) == nonempty_parts(ps.take(k as int)),
        decreases parts@.len() - k,
    {
        assert(ps.take(k + 1).drop_last() =~= ps.take(k as int));
        assert(ps.take(k + 1).last() == parts@[k as int]@);
        if parts[k].len() > 0 {
            let x = string_of(&parts[k]);
            assert(string_views(categories@.push(x)) =~= string_views(categories@).push(x@));
            categories.push(x);
        }
        k = k + 1;
    }
    assert(ps.take(k as int) =~= ps);
    let title = crate::text::concat_str("Articles - ", index.as_str());
    let tag_name = if display_tag_header {
        let mut start: usize = ic.len();
        assert(ic@.take(start as int) =~= ic@);
        assert(ic@.skip(start as int) =~= Seq::<char>::empty());
        while start > 0 && ic[start - 1] != '/'
            invariant
                start <= ic@.len(),
                after_last_slash(ic@) == after_last_slash(ic@.take(start as int)) + ic@.skip(start as int),
            decreases start,
        {
            assert(ic@.take(start as int).drop_last() =~= ic@.take(start - 1));
            assert(ic@.skip(start - 1) =~= seq![ic@[start - 1]] + ic@.skip(start as int));
            start = start - 1;
        }
        let mut name: Vec<char> = Vec::new();
        let mut j: usize = start;
        while j < ic.len()
            invariant
                start <= j <= ic@.len(),
                name@ == ic@.subrange(start as int, j as int),
            decreases ic@.len() - j,
        {
            name.push(ic[j]);
            j = j + 1;
            assert(name@ =~= ic@.subrange(start as int, j as int));
        }
        assert(name@ =~= ic@.skip(start as int));
        assert(after_last_slash(ic@.take(start as int)) =~= Seq::<char>::empty()) by {
            if start > 0 {
                assert(ic@.take(start as int).last() == '/');
            }
        }
        Some(string_of(&name))
    } else {
        None
    };
    let mut out: Vec<char> = chars_of(settings.output_path.as_str());
    out.push('/');
    push_str(&mut out, settings.blog_prefix_path.as_str());
    out.push('/');
    push_str(&mut out, index.as_str());
    assert(out@ =~= settings.output_path@ + seq!['/'] + settings.blog_prefix_path@ + seq!['/'] + index@);
    IndexPage {
        posts: sorted,
        categories,
        title,
        tag_name,
        url_path: index.clone(),
        output_directory: string_of(&out),
    }
}

/// The pages of the indexes (categories or tags).
pub fn write_indexes_html(
    indexes_to_create: &Vec<(String, Vec<usize>)>,
    posts: &[Post],
    settings: &Settings,
    display_tag_header: bool,
) -> (r: Vec<IndexPage>)
    requires
        forall|g: int, i: int| 0 <= g < indexes_to_create@.len() && 0 <= i < indexes_to_create@[g].1@.len()
            ==> #[trigger] indexes_to_create@[g].1@[i] < posts@.len(),
    ensures
        r@.len() == indexes_to_create@.len(),
        forall|g: int| 0 <= g < r@.len() ==> index_page_is(
            #[trigger] r@[g],
            indexes_to_create@[g].0@,
            indexes_to_create@[g].1@.map_values(|i: usize| i as int),
            posts@,
            *settings,
            display_tag_header,
        ),
{
    let mut pages: Vec<IndexPage> = Vec::new();
    let mut g: usize = 0;
    while g < indexes_to_create.len()
        invariant
            g <= indexes_to_create@.len(),
            forall|a: int, i: int| 0 <= a < indexes_to_create@.len() && 0 <= i < indexes_to_create@[a].1@.len()
                ==> #[trigger] indexes_to_create@[a].1@[i] < posts@.len(),
            pages@.len() == g,
            forall|a: int| 0 <= a < g ==> index_page_is(
                #[trigger] pages@[a],
                indexes_to_create@[a].0@,
                indexes_to_create@[a].1@.map_values(|i: usize| i as int),
                posts@,
                *settings,
                display_tag_header,
            ),
        decreases indexes_to_create@.len() - g,
    {
        let (index, group) = (&indexes_to_create[g].0, &indexes_to_create[g].1);
        assert forall|i: int| 0 <= i < group@.len() implies #[trigger] group@[i] < posts@.len() by {
            assert(indexes_to_create@[g as int].1@[i] < posts@.len());
        }
        let page = index_page(index, group, posts, settings, display_tag_header);
        pages.push(page);
        g = g + 1;
    }
    pages
}


// ---------------------------------------------------------------------------
// The whole site
/// Whether every position in the groups is below `n`.
pub open spec fn positions_below(groups: Seq<(Seq<char>, Seq<int>)>, n: int) -> bool {
    forall|g: int, k: int| 0 <= g < groups.len() && 0 <= k < groups[g].1.len() ==> 0 <= #[trigger] groups[g].1[k] < n
}

proof fn lemma_add_to_groups_below(groups: Seq<(Seq<char>, Seq<int>)>, keys: Seq<Seq<char>>, i: int, n: int)
    requires
        positions_below(groups, n),
        0 <= i < n,
    ensures
        positions_below(add_to_groups(groups, keys, i), n),
    decreases keys.len(),
{
    if keys.len() > 0 {
        lemma_add_to_groups_below(groups, keys.drop_last(), i, n);
        let prev = add_to_groups(groups, keys.drop_last(), i);
        let g2 = add_to_group(prev, keys.last(), i);
        assert forall|g: int, k: int| 0 <= g < g2.len() && 0 <= k < g2[g].1.len() implies 0 <= #[trigger] g2[g].1[k] < n by {
            if has_key(prev, keys.last()) {
                let j = key_index(prev, keys.last());
                if g == j && k == prev[j].1.len() {
                } else if g == j {
                    assert(g2[g].1[k] == prev[g].1[k]);
                } else {
                    assert(g2[g] == prev[g]);
                }
            } else if g < prev.len() {
                assert(g2[g] == prev[g]);
            }
        }
    }
}

proof fn lemma_posts_per_tags_below(posts: Seq<Post>, m: nat)
    ensures
        positions_below(posts_per_tags(posts, m), m as int),
    decreases m,
{
    if m > 0 {
        lemma_posts_per_tags_below(posts, (m - 1) as nat);
        lemma_add_to_groups_below(posts_per_tags(posts, (m - 1) as nat), tag_keys(posts[m - 1]), m - 1, m as int);
    }
}

proof fn lemma_posts_per_indexes_below(posts: Seq<Post>, m: nat, posts_path: Seq<char>, create_index_for: Seq<Seq<char>>)
    ensures
        positions_below(posts_per_indexes(posts, m, posts_path, create_index_for), m as int),
    decreases m,
{
    if m > 0 {
        lemma_posts_per_indexes_below(posts, (m - 1) as nat, posts_path, create_index_for);
        lemma_add_to_groups_below(
            posts_per_indexes(posts, (m - 1) as nat, posts_path, create_index_for),
            index_keys(string_views(posts[m - 1].ancestor_directories_paths@), posts_path, create_index_for),
            m - 1,
            m as int,
        );
    }
}

/// Positions below `n` in the groups' view are below `n` in the groups.
proof fn lemma_group_positions(v: Seq<(String, Vec<usize>)>, n: int)
    requires
        positions_below(group_views(v), n),
    ensures
        forall|g: int, i: int| 0 <= g < v.len() && 0 <= i < v[g].1@.len() ==> #[trigger] v[g].1@[i] < n,
{
    assert forall|g: int, i: int| 0 <= g < v.len() && 0 <= i < v[g].1@.len() implies #[trigger] v[g].1@[i] < n by {
        assert(group_views(v)[g].1[i] == v[g].1@[i] as int);
    }
}

/// Whether every post of a parse that is published can be written: its dates
/// are ones chrono can hold, and it has a directory if it has tags.
pub open spec fn parsed_ok(parsed: Seq<Option<Post>>, publish_drafts: bool) -> bool {
    forall|i: int| 0 <= i < parsed.len() ==> (#[trigger] parsed[i] matches Some(p)
        ==> (published(p, publish_drafts) ==> p.wf() && tags_have_directory(p)))
}

proof fn lemma_published_ok(parsed: Seq<Option<Post>>, publish_drafts: bool)
    requires
        parsed_ok(parsed, publish_drafts),
    ensures
        forall|i: int| 0 <= i < published_posts(parsed, publish_drafts).len() ==>
            (#[trigger] published_posts(parsed, publish_drafts)[i]).wf()
            && tags_have_directory(published_posts(parsed, publish_drafts)[i]),
{
    law_kept_posts_are_published(parsed, publish_drafts);
    let kept = published_posts(parsed, publish_drafts);
    assert forall|i: int| 0 <= i < kept.len() implies (#[trigger] kept[i]).wf() && tags_have_directory(kept[i]) by {
        assert(parsed.contains(Some(kept[i])));
        let j = choose|j: int| 0 <= j < parsed.len() && parsed[j] == Some(kept[i]);
        assert(parsed[j] matches Some(p) ==> (published(p, publish_drafts) ==> p.wf() && tags_have_directory(p)));
    }
}

/// What a run writes: the published posts and pages with their pages, the
/// category indexes, the tag indexes, the sitemap of posts and pages, and
/// the feed of posts.
pub struct SiteContent {
    pub posts: Vec<Post>,
    pub post_pages: Vec<PostPage>,
    pub indexes: Vec<IndexPage>,
    pub tag_indexes: Vec<IndexPage>,
    pub pages: Vec<Post>,
    pub page_pages: Vec<PostPage>,
    pub sitemap: Result<Vec<u8>, SitemapError>,
    pub atom: Result<Vec<u8>, AtomFeedError>,
}

/// Whether the pages are those of the posts, in order.
pub open spec fn pages_of(pages: Seq<PostPage>, posts: Seq<Post>, settings: Settings) -> bool {
    pages.len() == posts.len() && forall|i: int| 0 <= i < posts.len() ==> post_page_is(#[trigger] pages[i], posts[i], settings)
}

/// Whether the index pages are those of the groups, in order.
pub open spec fn indexes_of(
    pages: Seq<IndexPage>,
    groups: Seq<(Seq<char>, Seq<int>)>,
    posts: Seq<Post>,
    settings: Settings,
    display_tag_header: bool,
) -> bool {
    pages.len() == groups.len() && forall|g: int| 0 <= g < groups.len() ==>
        index_page_is(#[trigger] pages[g], groups[g].0, groups[g].1, posts, settings, display_tag_header)
}

/// Whether every published post and page converts to HTML.
pub open spec fn site_converts(parsed_posts: Seq<Option<Post>>, parsed_pages: Seq<Option<Post>>, publish_drafts: bool) -> bool {
    &&& forall|i: int| 0 <= i < published_posts(parsed_posts, publish_drafts).len() ==>
        post_converts(#[trigger] published_posts(parsed_posts, publish_drafts)[i])
    &&& forall|i: int| 0 <= i < published_posts(parsed_pages, publish_drafts).len() ==>
        post_converts(#[trigger] published_posts(parsed_pages, publish_drafts)[i])
}

/// The content of the site, from the parsed posts and pages: the published
/// ones, their pages, the indexes of the categories in `create_index_for`,
/// the tag indexes, the sitemap of posts then pages, and the Atom feed of the
/// posts. `None` when a Markdown text has too many headings to convert.
pub fn create_content(
    parsed_posts: Vec<Option<Post>>,
    parsed_pages: Vec<Option<Post>>,
    publish_drafts: bool,
    settings: &Settings,
) -> (r: Option<SiteContent>)
    requires
        parsed_ok(parsed_posts@, publish_drafts),
        parsed_ok(parsed_pages@, publish_drafts),
    ensures
        r is Some <==> site_converts(parsed_posts@, parsed_pages@, publish_drafts),
        r matches Some(c) ==> {
            let pp = settings.posts_path@;
            let cif = string_views(settings.create_index_for@);
            &&& c.posts@ == published_posts(parsed_posts@, publish_drafts)
            &&& c.pages@ == published_posts(parsed_pages@, publish_drafts)
            &&& pages_of(c.post_pages@, c.posts@, *settings)
            &&& pages_of(c.page_pages@, c.pages@, *settings)
            &&& indexes_of(c.indexes@, posts_per_indexes(c.posts@, c.posts@.len(), pp, cif), c.posts@, *settings, false)
            &&& indexes_of(c.tag_indexes@, posts_per_tags(c.posts@, c.posts@.len()), c.posts@, *settings, true)
            &&& c.sitemap matches Ok(bytes) && bytes@ == xml_bytes(sitemap_events(c.posts@ + c.pages@, settings.base_url@))
            &&& c.atom matches Ok(bytes) ==> exists|updated: PostDate| {
                &&& c.posts@.len() > 0 ==> updated == newest_date(c.posts@)
                &&& bytes@ == atom_xml(feed_for(c.posts@, settings.base_url@, settings.author@, settings.website_title@, updated))
            }
            &&& (c.atom matches Err(AtomFeedError::TooManyHeadings))
                <==> !(forall|i: int| 0 <= i < c.posts@.len() ==> feed_converts(#[trigger] c.posts@[i]))
            &&& c.atom is Ok <==> (forall|i: int| 0 <= i < c.posts@.len() ==> feed_converts(#[trigger] c.posts@[i]))
        },
{
    proof {
        lemma_published_ok(parsed_posts@, publish_drafts);
        lemma_published_ok(parsed_pages@, publish_drafts);
    }
    let posts = get_posts(parsed_posts, publish_drafts);
    let post_pages = match write_posts_html(&posts, settings) {
        Some(p) => p,
        None => return None,
    };
    let groups = get_posts_per_indexes(&posts, settings);
    proof {
        lemma_posts_per_indexes_below(posts@, posts@.len(), settings.posts_path@, string_views(settings.create_index_for@));
        lemma_group_positions(groups@, posts@.len() as int);
    }
    let indexes = write_indexes_html(&groups, &posts, settings, false);
    let tag_groups = get_posts_per_tags(&posts);
    proof {
        lemma_posts_per_tags_below(posts@, posts@.len());
        lemma_group_positions(tag_groups@, posts@.len() as int);
    }
    let tag_indexes = write_indexes_html(&tag_groups, &posts, settings, true);
    let pages = get_posts(parsed_pages, publish_drafts);
    let page_pages = match write_posts_html(&pages, settings) {
        Some(p) => p,
        None => return None,
    };
    let ghost posts_v = posts@;
    let ghost pages_v = pages@;
    let n = posts.len();
    let mut all = posts;
    let mut rest = pages;
    all.append(&mut rest);
    let sitemap = write_sitemap_for_posts(&all, settings.base_url.as_str());
    let pages = all.split_off(n);
    let posts = all;
    assert(posts@ =~= posts_v);
    assert(pages@ =~= pages_v);
    let atom = write_atom_for_posts(&posts, settings.base_url.as_str(), settings.author.as_str(), settings.website_title.as_str(), settings);
    proof {
        assert(indexes@.len() == groups@.len());
        assert forall|g: int| 0 <= g < groups@.len() implies #[trigger] group_views(groups@)[g] == (groups@[g].0@, groups@[g].1@.map_values(|i: usize| i as int)) by {}
        assert forall|g: int| 0 <= g < tag_groups@.len() implies #[trigger] group_views(tag_groups@)[g] == (tag_groups@[g].0@, tag_groups@[g].1@.map_values(|i: usize| i as int)) by {}
    }
    Some(SiteContent { posts, post_pages, indexes, tag_indexes, pages, page_pages, sitemap, atom })
}

} // verus!
