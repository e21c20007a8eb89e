//! Stable insertion sorts: positions ordered by an integer key, and pairs of
//! strings ordered by their first string.
use vstd::prelude::*;

verus! {

/// Whether `a` goes before or with `b`: by key, ascending or descending.
pub open spec fn key_le(keys: Seq<int>, a: int, b: int, descending: bool) -> bool {
    if descending {
        keys[a] >= keys[b]
    } else {
        keys[a] <= keys[b]
    }
}

/// Inserts `x` into `s` after the last element that goes before or with it,
/// scanning from the end.
pub open spec fn insert_by_key(keys: Seq<int>, s: Seq<int>, x: int, descending: bool) -> Seq<int>
    decreases s.len(),
{
    if s.len() == 0 {
        seq![x]
    } else if key_le(keys, s.last(), x, descending) {
        s.push(x)
    } else {
        insert_by_key(keys, s.drop_last(), x, descending).push(s.last())
    }
}

/// Stable insertion sort of positions by key (what `sort_by` with a key
/// comparison gives).
pub open spec fn sort_by_key(keys: Seq<int>, s: Seq<int>, descending: bool) -> Seq<int>
    decreases s.len(),
{
    if s.len() == 0 {
        Seq::empty()
    } else {
        insert_by_key(keys, sort_by_key(keys, s.drop_last(), descending), s.last(), descending)
    }
}

/// Where `insert_by_key` puts `x`.
pub open spec fn insert_pos(keys: Seq<int>, s: Seq<int>, x: int, descending: bool) -> int
    decreases s.len(),
{
    if s.len() == 0 {
        0
    } else if key_le(keys, s.last(), x, descending) {
        s.len() as int
    } else {
        insert_pos(keys, s.drop_last(), x, descending)
    }
}

pub proof fn lemma_insert_pos(keys: Seq<int>, s: Seq<int>, x: int, descending: bool)
    ensures
        0 <= insert_pos(keys, s, x, descending) <= s.len(),
        insert_by_key(keys, s, x, descending) == s.take(insert_pos(keys, s, x, descending)).push(x) + s.skip(insert_pos(keys, s, x, descending)),
        forall|j: int| insert_pos(keys, s, x, descending) <= j < s.len() ==> !key_le(keys, #[trigger] s[j], x, descending),
        insert_pos(keys, s, x, descending) > 0 ==> key_le(keys, s[insert_pos(keys, s, x, descending) - 1], x, descending),
    decreases s.len(),
{
    let p = insert_pos(keys, s, x, descending);
    if s.len() == 0 {
        assert(s.take(0).push(x) + s.skip(0) =~= seq![x]);
    } else if key_le(keys, s.last(), x, descending) {
        assert(s.take(p).push(x) + s.skip(p) =~= s.push(x));
    } else {
        let t = s.drop_last();
        lemma_insert_pos(keys, t, x, descending);
        assert(t.take(p).push(x) + t.skip(p) + seq![s.last()] =~= s.take(p).push(x) + s.skip(p));
        assert(forall|j: int| p <= j < t.len() ==> t[j] == s[j]);
    }
}

/// Sorted: every element goes before or with the next.
pub open spec fn sorted_by_key(keys: Seq<int>, s: Seq<int>, descending: bool) -> bool {
    forall|a: int, b: int| 0 <= a < b < s.len() ==> key_le(keys, s[a], s[b], descending)
}

pub proof fn lemma_insert_sorted(keys: Seq<int>, s: Seq<int>, x: int, descending: bool)
    requires
        sorted_by_key(keys, s, descending),
    ensures
        sorted_by_key(keys, insert_by_key(keys, s, x, descending), descending),
        insert_by_key(keys, s, x, descending).to_multiset() == s.to_multiset().insert(x),
{
    lemma_insert_pos(keys, s, x, descending);
    let p = insert_pos(keys, s, x, descending);
    let r = insert_by_key(keys, s, x, descending);
    assert forall|a: int, b: int| 0 <= a < b < r.len() implies key_le(keys, r[a], r[b], descending) by {
        if a < p && b < p {
            assert(r[a] == s[a] && r[b] == s[b]);
        } else if a < p && b == p {
            assert(r[a] == s[a]);
            assert(key_le(keys, s[a], s[p - 1], descending) || a == p - 1);
        } else if a < p {
            assert(r[a] == s[a] && r[b] == s[b - 1]);
        } else if a == p {
            assert(r[b] == s[b - 1]);
            assert(!key_le(keys, s[b - 1], x, descending));
        } else {
            assert(r[a] == s[a - 1] && r[b] == s[b - 1]);
        }
    }
    assert(r =~= s.insert(p, x));
    vstd::seq_lib::to_multiset_insert(s, p, x);
}

/// The sort gives a sorted rearrangement of its input.
pub proof fn lemma_sort_by_key(keys: Seq<int>, s: Seq<int>, descending: bool)
    ensures
        sorted_by_key(keys, sort_by_key(keys, s, descending), descending),
        sort_by_key(keys, s, descending).to_multiset() == s.to_multiset(),
    decreases s.len(),
{
    if s.len() == 0 {
        assert(sort_by_key(keys, s, descending) =~= s);
    } else {
        lemma_sort_by_key(keys, s.drop_last(), descending);
        lemma_insert_sorted(keys, sort_by_key(keys, s.drop_last(), descending), s.last(), descending);
        s.drop_last().to_multiset_ensures();
        assert(s.drop_last().push(s.last()) =~= s);
    }
}

/// The sort keeps the elements and their number.
pub proof fn lemma_sort_same_elements(keys: Seq<int>, s: Seq<int>, descending: bool)
    ensures
        sort_by_key(keys, s, descending).len() == s.len(),
        forall|x: int| s.contains(x) <==> #[trigger] sort_by_key(keys, s, descending).contains(x),
{
    lemma_sort_by_key(keys, s, descending);
    let t = sort_by_key(keys, s, descending);
    s.to_multiset_ensures();
    t.to_multiset_ensures();
    assert forall|x: int| s.contains(x) <==> #[trigger] t.contains(x) by {
        assert(s.contains(x) <==> s.to_multiset().count(x) > 0);
        assert(t.contains(x) <==> t.to_multiset().count(x) > 0);
    }
}

/// Sorts positions by their key, stably.
pub fn sort_positions(keys: &Vec<i128>, positions: &Vec<usize>, descending: bool) -> (r: Vec<usize>)
    requires
        forall|i: int| 0 <= i < positions@.len() ==> #[trigger] positions@[i] < keys@.len(),
    ensures
        r@.map_values(|i: usize| i as int) == sort_by_key(
            keys@.map_values(|k: i128| k as int),
            positions@.map_values(|i: usize| i as int),
            descending,
        ),
        forall|i: int| 0 <= i < r@.len() ==> #[trigger] r@[i] < keys@.len(),
{
    let ghost ks = keys@.map_values(|k: i128| k as int);
    let ghost ps = positions@.map_values(|i: usize| i as int);
    let mut out: Vec<usize> = Vec::new();
    let mut n: usize = 0;
    while n < positions.len()
        invariant
            n <= positions@.len(),
            ks == keys@.map_values(|k: i128| k as int),
            ps == positions@.map_values(|i: usize| i as int),
            forall|i: int| 0 <= i < positions@.len() ==> #[trigger] positions@[i] < keys@.len(),
            forall|i: int| 0 <= i < out@.len() ==> #[trigger] out@[i] < keys@.len(),
            out@.map_values(|i: usize| i as int) == sort_by_key(ks, ps.take(n as int), descending),
        decreases positions@.len() - n,
    {
        let x = positions[n];
        let ghost old_out = out@;
        let ghost so = out@.map_values(|i: usize| i as int);
        proof {
            lemma_insert_pos(ks, so, x as int, descending);
        }
        // Scan from the end for the place of x.
        let mut p: usize = out.len();
        assert(so.take(p as int) =~= so);
        loop
            invariant
                p <= out@.len(),
                so == out@.map_values(|i: usize| i as int),
                forall|i: int| 0 <= i < out@.len() ==> #[trigger] out@[i] < keys@.len(),
                x < keys@.len(),
                ks == keys@.map_values(|k: i128| k as int),
                insert_pos(ks, so.take(p as int), x as int, descending) == insert_pos(ks, so, x as int, descending),
            ensures
                p <= out@.len(),
                p == insert_pos(ks, so, x as int, descending),
            decreases p,
        {
            if p == 0 {
                assert(so.take(0).len() == 0);
                break;
            }
            assert(so.take(p as int).last() == so[p - 1]);
            let before = if descending {
                keys[out[p - 1]] >= keys[x]
            } else {
                keys[out[p - 1]] <= keys[x]
            };
            if before {
                assert(ks[so[p - 1]] == keys@[out@[p - 1] as int] as int);
                assert(ks[x as int] == keys@[x as int] as int);
                break;
            }
            assert(so.take(p as int).drop_last() =~= so.take(p - 1));
            p = p - 1;
        }
        proof {
            if p > 0 {
                assert(so.take(p as int).last() == so[p - 1]);
            } else {
                assert(so.take(0).len() == 0);
            }
        }
        out.insert(p, x);
        proof {
            assert forall|i: int| 0 <= i < out@.len() implies #[trigger] out@[i] < keys@.len() by {
                if i < p {
                    assert(out@[i] == old_out[i]);
                } else if i > p {
                    assert(out@[i] == old_out[i - 1]);
                }
            }
            assert(ps.take(n + 1).drop_last() =~= ps.take(n as int));
            assert(ps.take(n + 1).last() == x as int);
            assert(out@.map_values(|i: usize| i as int) =~= so.take(p as int).push(x as int) + so.skip(p as int));
        }
        n = n + 1;
    }
    assert(ps.take(n as int) =~= ps);
    out
}

// ---------------------------------------------------------------------------
/// Lexicographic order on characters (what `String`'s order is: UTF-8
/// preserves the order of code points).
pub open spec fn chars_le(a: Seq<char>, b: Seq<char>) -> bool
    decreases a.len(),
{
    if a.len() == 0 {
        true
    } else if b.len() == 0 {
        false
    } else if (a[0] as u32) < (b[0] as u32) {
        true
    } else if a[0] == b[0] {
        chars_le(a.drop_first(), b.drop_first())
    } else {
        false
    }
}

/// Whether `a` is at most `b`, lexicographically.
pub fn chars_le_exec(a: &[char], b: &[char]) -> (r: bool)
    ensures
        r == chars_le(a@, b@),
{
    let mut i: usize = 0;
    assert(a@.skip(0) =~= a@);
    assert(b@.skip(0) =~= b@);
    while i < a.len() && i < b.len() && a[i] == b[i]
        invariant
            i <= a@.len(),
            i <= b@.len(),
            chars_le(a@, b@) == chars_le(a@.skip(i as int), b@.skip(i as int)),
        decreases a@.len() - i,
    {
        assert(a@.skip(i as int).drop_first() =~= a@.skip(i + 1));
        assert(b@.skip(i as int).drop_first() =~= b@.skip(i + 1));
        i = i + 1;
    }
    if i == a.len() {
        true
    } else if i == b.len() {
        false
    } else {
        assert(a@.skip(i as int)[0] == a@[i as int]);
        assert(b@.skip(i as int)[0] == b@[i as int]);
        (a[i] as u32) < (b[i] as u32)
    }
}

/// Inserts a pair after the last pair whose key is at most its key.
pub open spec fn insert_pair(s: Seq<(Seq<char>, Seq<char>)>, x: (Seq<char>, Seq<char>)) -> Seq<(Seq<char>, Seq<char>)>
    decreases s.len(),
{
    if s.len() == 0 {
        seq![x]
    } else if chars_le(s.last().0, x.0) {
        s.push(x)
    } else {
        insert_pair(s.drop_last(), x).push(s.last())
    }
}

/// Stable insertion sort of pairs by their first string.
pub open spec fn sort_pairs(s: Seq<(Seq<char>, Seq<char>)>) -> Seq<(Seq<char>, Seq<char>)>
    decreases s.len(),
{
    if s.len() == 0 {
        Seq::empty()
    } else {
        insert_pair(sort_pairs(s.drop_last()), s.last())
    }
}

pub open spec fn pairs_view(v: Seq<(String, String)>) -> Seq<(Seq<char>, Seq<char>)> {
    v.map_values(|p: (String, String)| (p.0@, p.1@))
}

pub open spec fn insert_pair_pos(s: Seq<(Seq<char>, Seq<char>)>, x: (Seq<char>, Seq<char>)) -> int
    decreases s.len(),
{
    if s.len() == 0 {
        0
    } else if chars_le(s.last().0, x.0) {
        s.len() as int
    } else {
        insert_pair_pos(s.drop_last(), x)
    }
}

pub proof fn lemma_insert_pair_pos(s: Seq<(Seq<char>, Seq<char>)>, x: (Seq<char>, Seq<char>))
    ensures
        0 <= insert_pair_pos(s, x) <= s.len(),
        insert_pair(s, x) == s.take(insert_pair_pos(s, x)).push(x) + s.skip(insert_pair_pos(s, x)),
    decreases s.len(),
{
    let p = insert_pair_pos(s, x);
    if s.len() == 0 {
        assert(s.take(0).push(x) + s.skip(0) =~= seq![x]);
    } else if chars_le(s.last().0, x.0) {
        assert(s.take(p).push(x) + s.skip(p) =~= s.push(x));
    } else {
        let t = s.drop_last();
        lemma_insert_pair_pos(t, x);
        assert(t.take(p).push(x) + t.skip(p) + seq![s.last()] =~= s.take(p).push(x) + s.skip(p));
    }
}

/// Sorts pairs of strings by their first string (`sort_by` on the key).
pub fn sort_pairs_by_key(v: Vec<(String, String)>) -> (r: Vec<(String, String)>)
    ensures
        pairs_view(r@) == sort_pairs(pairs_view(v@)),
{
    let ghost all = pairs_view(v@);
    let mut rest = v;
    let mut out: Vec<(String, String)> = Vec::new();
    let n = rest.len();
    let mut k: usize = 0;
    while k < n
        invariant
            k <= n,
            n == all.len(),
            pairs_view(rest@) == all.skip(k as int),
            rest@.len() == n - k,
            pairs_view(out@) == sort_pairs(all.take(k as int)),
        decreases n - k,
    {
        let ghost r0 = rest@;
        let x = rest.remove(0);
        assert(pairs_view(r0)[0] == (r0[0].0@, r0[0].1@));
        assert(rest@ =~= r0.skip(1));
        assert(pairs_view(rest@) =~= pairs_view(r0).skip(1));
        assert(pairs_view(r0).skip(1) =~= all.skip(k + 1));
        assert((x.0@, x.1@) == all[k as int]);
        let xk = crate::text::chars_of(x.0.as_str());
        let ghost so = pairs_view(out@);
        let ghost xv = (x.0@, x.1@);
        proof {
            lemma_insert_pair_pos(so, xv);
        }
        let mut p: usize = out.len();
        assert(so.take(p as int) =~= so);
        loop
            invariant
                p <= out@.len(),
                so == pairs_view(out@),
                xk@ == xv.0,
                insert_pair_pos(so.take(p as int), xv) == insert_pair_pos(so, xv),
            ensures
                p <= out@.len(),
                p == insert_pair_pos(so, xv),
            decreases p,
        {
            if p == 0 {
                assert(so.take(0).len() == 0);
                break;
            }
            let pk = crate::text::chars_of(out[p - 1].0.as_str());
            assert(so.take(p as int).last() == so[p - 1]);
            if chars_le_exec(&pk, &xk) {
                assert(so[p - 1].0 == pk@);
                break;
            }
            assert(so.take(p as int).drop_last() =~= so.take(p - 1));
            p = p - 1;
        }
        proof {
            if p == 0 {
                assert(so.take(0).len() == 0);
            }
        }
        out.insert(p, x);
        proof {
            assert(all.take(k + 1).drop_last() =~= all.take(k as int));
            assert(all.take(k + 1).last() == xv);
            assert(pairs_view(out@) =~= so.take(p as int).push(xv) + so.skip(p as int));
        }
        k = k + 1;
    }
    assert(all.take(k as int) =~= all);
    out
}

} // verus!
