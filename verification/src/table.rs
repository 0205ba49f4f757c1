//! Copies of lists, and lists of key-value pairs as maps.

use vstd::prelude::*;

verus! {

/// A copy of a list.
pub(crate) fn copy_all<T: Copy>(a: &Vec<T>) -> (r: Vec<T>)
    ensures
        r@ == a@,
{
    let mut r: Vec<T> = Vec::new();
    let mut i: usize = 0;
    while i < a.len()
        invariant
            i <= a.len(),
            r@ == a@.take(i as int),
        decreases a.len() - i,
    {
        r.push(a[i]);
        i = i + 1;
        assert(r@ =~= a@.take(i as int));
    }
    assert(r@ =~= a@);
    r
}

/// No key occurs twice.
pub open spec fn distinct_firsts<K, V>(s: Seq<(K, V)>) -> bool {
    forall|i: int, j: int| 0 <= i < j < s.len() ==> (#[trigger] s[i]).0 != (#[trigger] s[j]).0
}

/// The values by key; the last value of a key counts.
pub open spec fn pairs_map<K, V>(s: Seq<(K, V)>) -> Map<K, V>
    decreases s.len(),
{
    if s.len() == 0 {
        Map::empty()
    } else {
        pairs_map(s.drop_last()).insert(s.last().0, s.last().1)
    }
}

/// The key occurs.
pub open spec fn occurs<K, V>(s: Seq<(K, V)>, k: K) -> bool {
    exists|i: int| 0 <= i < s.len() && (#[trigger] s[i]).0 == k
}

/// The first pairs of a list without a key twice have no key twice either.
pub proof fn lemma_distinct_prefix<K, V>(s: Seq<(K, V)>, n: int)
    requires
        distinct_firsts(s),
        0 <= n <= s.len(),
    ensures
        distinct_firsts(s.take(n)),
{
    let t = s.take(n);
    assert forall|i: int, j: int| 0 <= i < j < t.len() implies (#[trigger] t[i]).0 != (
    #[trigger] t[j]).0 by {
        assert(s[i].0 != s[j].0);
    }
}

/// The map holds the keys of the list and, where no key occurs twice, their
/// values.
pub proof fn lemma_pairs_map<K, V>(s: Seq<(K, V)>)
    ensures
        pairs_map(s).dom().finite(),
        forall|k: K| #[trigger] pairs_map(s).dom().contains(k) <==> occurs(s, k),
        distinct_firsts(s) ==> forall|i: int|
            0 <= i < s.len() ==> pairs_map(s)[(#[trigger] s[i]).0] == s[i].1,
    decreases s.len(),
{
    if s.len() > 0 {
        let t = s.drop_last();
        lemma_pairs_map(t);
        assert forall|k: K| #[trigger] pairs_map(s).dom().contains(k) <==> occurs(s, k) by {
            if k == s.last().0 {
                assert(s[s.len() - 1].0 == k);
            } else {
                if occurs(t, k) {
                    let i = choose|i: int| 0 <= i < t.len() && (#[trigger] t[i]).0 == k;
                    assert(s[i].0 == k);
                }
                if occurs(s, k) {
                    let i = choose|i: int| 0 <= i < s.len() && (#[trigger] s[i]).0 == k;
                    assert(t[i].0 == k);
                }
                assert(pairs_map(s).dom().contains(k) <==> pairs_map(t).dom().contains(k));
            }
        }
        if distinct_firsts(s) {
            assert(t =~= s.take(s.len() - 1));
            lemma_distinct_prefix(s, s.len() - 1);
            assert forall|i: int| 0 <= i < s.len() implies pairs_map(s)[(#[trigger] s[i]).0]
                == s[i].1 by {
                if i < t.len() {
                    assert(t[i] == s[i]);
                    assert(s[i].0 != s[s.len() - 1].0);
                }
            }
        }
    }
}

/// A map with the keys and the values of a list of distinct keys is its map.
pub proof fn lemma_is_pairs_map<K, V>(s: Seq<(K, V)>, m: Map<K, V>)
    requires
        distinct_firsts(s),
        forall|k: K| #[trigger] m.dom().contains(k) <==> occurs(s, k),
        forall|i: int| 0 <= i < s.len() ==> m[(#[trigger] s[i]).0] == s[i].1,
    ensures
        pairs_map(s) == m,
{
    lemma_pairs_map(s);
    assert forall|k: K| pairs_map(s).dom().contains(k) <==> m.dom().contains(k) by {}
    assert forall|k: K| pairs_map(s).dom().contains(k) implies pairs_map(s)[k] == m[k] by {
        let i = choose|i: int| 0 <= i < s.len() && (#[trigger] s[i]).0 == k;
        assert(pairs_map(s)[s[i].0] == s[i].1);
    }
    assert(pairs_map(s) =~= m);
}

/// Changing the value of a pair changes the value of its key.
pub proof fn lemma_pairs_update<K, V>(s: Seq<(K, V)>, i: int, v: V)
    requires
        distinct_firsts(s),
        0 <= i < s.len(),
    ensures
        distinct_firsts(s.update(i, (s[i].0, v))),
        pairs_map(s.update(i, (s[i].0, v))) == pairs_map(s).insert(s[i].0, v),
{
    lemma_pairs_map(s);
    let t = s.update(i, (s[i].0, v));
    let m = pairs_map(s).insert(s[i].0, v);
    assert forall|p: int, q: int| 0 <= p < q < t.len() implies (#[trigger] t[p]).0 != (
    #[trigger] t[q]).0 by {
        assert(s[p].0 != s[q].0);
    }
    assert forall|k: K| #[trigger] m.dom().contains(k) <==> occurs(t, k) by {
        if k == s[i].0 {
            assert(t[i].0 == k);
        } else {
            if occurs(s, k) {
                let j = choose|j: int| 0 <= j < s.len() && (#[trigger] s[j]).0 == k;
                assert(t[j].0 == k);
            }
            if occurs(t, k) {
                let j = choose|j: int| 0 <= j < t.len() && (#[trigger] t[j]).0 == k;
                assert(s[j].0 == k);
            }
            assert(m.dom().contains(k) <==> pairs_map(s).dom().contains(k));
        }
    }
    assert forall|j: int| 0 <= j < t.len() implies m[(#[trigger] t[j]).0] == t[j].1 by {
        if j < i {
            assert(s[j].0 != s[i].0);
        } else if i < j {
            assert(s[i].0 != s[j].0);
        }
        assert(pairs_map(s)[s[j].0] == s[j].1);
    }
    lemma_is_pairs_map(t, m);
}

/// Appending a pair with a new key adds the key.
pub proof fn lemma_pairs_push<K, V>(s: Seq<(K, V)>, k: K, v: V)
    requires
        distinct_firsts(s),
        !occurs(s, k),
    ensures
        distinct_firsts(s.push((k, v))),
        pairs_map(s.push((k, v))) == pairs_map(s).insert(k, v),
{
    let t = s.push((k, v));
    assert(t.drop_last() =~= s);
    assert forall|p: int, q: int| 0 <= p < q < t.len() implies (#[trigger] t[p]).0 != (
    #[trigger] t[q]).0 by {
        if q < s.len() {
            assert(s[p].0 != s[q].0);
        } else {
            assert(s[p] == t[p]);
        }
    }
}

/// Removing a pair removes its key.
pub proof fn lemma_pairs_remove<K, V>(s: Seq<(K, V)>, i: int)
    requires
        distinct_firsts(s),
        0 <= i < s.len(),
    ensures
        distinct_firsts(s.remove(i)),
        pairs_map(s.remove(i)) == pairs_map(s).remove(s[i].0),
{
    lemma_pairs_map(s);
    let t = s.remove(i);
    let m = pairs_map(s).remove(s[i].0);
    assert forall|p: int, q: int| 0 <= p < q < t.len() implies (#[trigger] t[p]).0 != (
    #[trigger] t[q]).0 by {
        let bp = if p < i {
            p
        } else {
            p + 1
        };
        let bq = if q < i {
            q
        } else {
            q + 1
        };
        assert(s[bp].0 != s[bq].0);
    }
    assert forall|k: K| #[trigger] m.dom().contains(k) <==> occurs(t, k) by {
        if m.dom().contains(k) {
            assert(pairs_map(s).dom().contains(k));
            let j = choose|j: int| 0 <= j < s.len() && (#[trigger] s[j]).0 == k;
            if j < i {
                assert(t[j].0 == k);
            } else {
                assert(t[j - 1].0 == k);
            }
        }
        if occurs(t, k) {
            let j = choose|j: int| 0 <= j < t.len() && (#[trigger] t[j]).0 == k;
            if j < i {
                assert(s[j].0 == k);
                assert(s[j].0 != s[i].0);
            } else {
                assert(s[j + 1].0 == k);
                assert(s[i].0 != s[j + 1].0);
            }
            assert(pairs_map(s).dom().contains(k));
        }
    }
    assert forall|j: int| 0 <= j < t.len() implies m[(#[trigger] t[j]).0] == t[j].1 by {
        let b = if j < i {
            j
        } else {
            j + 1
        };
        assert(t[j] == s[b]);
        assert(pairs_map(s)[s[b].0] == s[b].1);
    }
    lemma_is_pairs_map(t, m);
}

} // verus!
