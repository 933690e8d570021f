use vstd::prelude::*;
use crate::url::pairs_view;

verus! {

broadcast use vstd::seq_lib::to_multiset_insert;

/// `a` comes before `b` in the order of `str`: character by character,
/// a proper prefix first.
pub open spec fn key_lt(a: Seq<char>, b: Seq<char>) -> bool
    decreases a.len(),
{
    if a.len() == 0 {
        b.len() > 0
    } else if b.len() == 0 {
        false
    } else if a[0] != b[0] {
        (a[0] as u32) < (b[0] as u32)
    } else {
        key_lt(a.drop_first(), b.drop_first())
    }
}

proof fn lemma_key_lt_transitive(a: Seq<char>, b: Seq<char>, c: Seq<char>)
    requires
        key_lt(a, b),
        key_lt(b, c),
    ensures
        key_lt(a, c),
    decreases a.len(),
{
    if a.len() > 0 && b.len() > 0 && c.len() > 0 && a[0] == b[0] && b[0] == c[0] {
        lemma_key_lt_transitive(a.drop_first(), b.drop_first(), c.drop_first());
    }
}

/// Where `x` goes among the sorted pairs `t`: before the first pair whose key
/// comes after its own.
pub open spec fn insert_position(t: Seq<(Seq<char>, Seq<char>)>, x: (Seq<char>, Seq<char>)) -> int
    decreases t.len(),
{
    if t.len() == 0 {
        0
    } else if key_lt(x.0, t[0].0) {
        0
    } else {
        1 + insert_position(t.drop_first(), x)
    }
}

/// The pairs sorted by key, pairs of equal keys in the order they came.
pub open spec fn sorted_by_key(s: Seq<(Seq<char>, Seq<char>)>) -> Seq<(Seq<char>, Seq<char>)>
    decreases s.len(),
{
    if s.len() == 0 {
        s
    } else {
        let t = sorted_by_key(s.drop_last());
        t.insert(insert_position(t, s.last()), s.last())
    }
}

proof fn lemma_insert_position(t: Seq<(Seq<char>, Seq<char>)>, x: (Seq<char>, Seq<char>), p: int)
    requires
        0 <= p <= t.len(),
        forall|k: int| 0 <= k < p ==> !key_lt(x.0, #[trigger] t[k].0),
        p == t.len() || key_lt(x.0, t[p].0),
    ensures
        insert_position(t, x) == p,
    decreases p,
{
    if p > 0 {
        assert(!key_lt(x.0, t[0].0));
        assert forall|k: int| 0 <= k < p - 1 implies !key_lt(x.0, #[trigger] t.drop_first()[k].0) by {
            assert(t.drop_first()[k] == t[k + 1]);
        }
        lemma_insert_position(t.drop_first(), x, p - 1);
    }
}

/// The pairs are in ascending order of their keys.
pub open spec fn keys_sorted(s: Seq<(String, String)>) -> bool {
    forall|i: int, j: int| 0 <= i < j < s.len() ==> !key_lt(#[trigger] s[j].0@, #[trigger] s[i].0@)
}

/// Whether `a` comes before `b`.
fn key_less(a: &str, b: &str) -> (r: bool)
    ensures
        r == key_lt(a@, b@),
{
    let n = a.unicode_len();
    let m = b.unicode_len();
    let mut i: usize = 0;
    proof {
        assert(a@.subrange(0, n as int) =~= a@);
        assert(b@.subrange(0, m as int) =~= b@);
    }
    while i < n && i < m
        invariant
            n == a@.len(),
            m == b@.len(),
            i <= n,
            i <= m,
            key_lt(a@, b@) == key_lt(a@.subrange(i as int, n as int), b@.subrange(i as int, m as int)),
        decreases n - i,
    {
        let x = a.get_char(i);
        let y = b.get_char(i);
        let ghost sa = a@.subrange(i as int, n as int);
        let ghost sb = b@.subrange(i as int, m as int);
        proof {
            assert(sa[0] == x && sb[0] == y);
            assert(sa.drop_first() =~= a@.subrange(i + 1, n as int));
            assert(sb.drop_first() =~= b@.subrange(i + 1, m as int));
        }
        if x != y {
            return (x as u32) < (y as u32);
        }
        i = i + 1;
    }
    i < m
}

/// The pairs sorted by key.
pub fn sort_pairs(pairs: Vec<(String, String)>) -> (r: Vec<(String, String)>)
    ensures
        r@.to_multiset() == pairs@.to_multiset(),
        keys_sorted(r@),
        pairs_view(r@) == sorted_by_key(pairs_view(pairs@)),
{
    let mut out: Vec<(String, String)> = Vec::new();
    let mut i: usize = 0;
    proof {
        assert(out@ =~= pairs@.subrange(0, 0));
    }
    while i < pairs.len()
        invariant
            i <= pairs.len(),
            out@.to_multiset() == pairs@.subrange(0, i as int).to_multiset(),
            keys_sorted(out@),
            pairs_view(out@) == sorted_by_key(pairs_view(pairs@.subrange(0, i as int))),
        decreases pairs.len() - i,
    {
        let x = (pairs[i].0.clone(), pairs[i].1.clone());
        let mut p: usize = 0;
        while p < out.len() && !key_less(x.0.as_str(), out[p].0.as_str())
            invariant
                p <= out.len(),
                forall|k: int| 0 <= k < p ==> !key_lt(x.0@, #[trigger] out@[k].0@),
            decreases out.len() - p,
        {
            p = p + 1;
        }
        let ghost before = out@;
        proof {
            assert forall|j: int| p <= j < before.len() implies !key_lt(#[trigger] before[j].0@, x.0@) by {
                if key_lt(before[j].0@, x.0@) {
                    assert(key_lt(x.0@, before[p as int].0@));
                    if j > p {
                        assert(!key_lt(before[j].0@, before[p as int].0@));
                        lemma_key_lt_transitive(before[j].0@, x.0@, before[p as int].0@);
                    } else {
                        lemma_key_lt_transitive(x.0@, before[j].0@, x.0@);
                        lemma_key_lt_irreflexive(x.0@);
                    }
                }
            }
        }
        out.insert(p, x);
        proof {
            let sv = pairs_view(pairs@.subrange(0, i + 1));
            assert(sv.drop_last() =~= pairs_view(pairs@.subrange(0, i as int)));
            lemma_insert_position(pairs_view(before), (x.0@, x.1@), p as int);
            assert(pairs_view(out@) =~= pairs_view(before).insert(p as int, (x.0@, x.1@)));
            assert(pairs@.subrange(0, i + 1) =~= pairs@.subrange(0, i as int).push(pairs@[i as int]));
            vstd::seq_lib::to_multiset_build(pairs@.subrange(0, i as int), pairs@[i as int]);
            assert(x == pairs@[i as int]);
            assert forall|a: int, b: int| 0 <= a < b < out@.len() implies !key_lt(#[trigger] out@[b].0@, #[trigger] out@[a].0@) by {
                if a < p && b == p {
                } else if a < p && b > p {
                    assert(out@[a] == before[a] && out@[b] == before[b - 1]);
                } else if a == p {
                    assert(out@[b] == before[b - 1]);
                } else if b < p {
                    assert(out@[a] == before[a] && out@[b] == before[b]);
                } else {
                    assert(out@[a] == before[a - 1] && out@[b] == before[b - 1]);
                }
            }
        }
        i = i + 1;
    }
    proof {
        assert(pairs@.subrange(0, pairs.len() as int) =~= pairs@);
    }
    out
}

proof fn lemma_key_lt_irreflexive(a: Seq<char>)
    ensures
        !key_lt(a, a),
    decreases a.len(),
{
    if a.len() > 0 {
        lemma_key_lt_irreflexive(a.drop_first());
    }
}

} // verus!
