//! Association lists with unique keys, and their `Map` view.
//!
//! The frame context stores its statistics and buffer maps as vectors of
//! key/value pairs whose keys are pairwise distinct; the spec-level view of
//! such a list is the finite `Map` it denotes. The lemmas here relate the
//! list operations (update in place, push a fresh key, remove an entry) to
//! `Map::insert` and `Map::remove` on the view.

use vstd::prelude::*;

verus! {

/// The keys of the pair list are pairwise distinct.
pub open spec fn keys_unique<K, V>(s: Seq<(K, V)>) -> bool {
    forall|i: int, j: int| 0 <= i < j < s.len() ==> s[i].0 != s[j].0
}

/// Some entry of the list carries key `k`.
pub open spec fn has_key<K, V>(s: Seq<(K, V)>, k: K) -> bool {
    exists|i: int| 0 <= i < s.len() && s[i].0 == k
}

/// The index of the entry carrying key `k` (meaningful when `has_key` holds
/// and the keys are unique).
pub open spec fn index_of<K, V>(s: Seq<(K, V)>, k: K) -> int {
    choose|i: int| 0 <= i < s.len() && s[i].0 == k
}

/// The value stored under key `k`.
pub open spec fn val_of<K, V>(s: Seq<(K, V)>, k: K) -> V {
    s[index_of(s, k)].1
}

/// The finite map denoted by the pair list.
pub open spec fn as_map<K, V>(s: Seq<(K, V)>) -> Map<K, V> {
    Map::new(|k: K| has_key(s, k), |k: K| val_of(s, k))
}

/// With unique keys, an entry with key `k` at index `i` is the entry the
/// view reads: `index_of` picks `i` and `val_of` picks its value.
pub proof fn lemma_unique_witness<K, V>(s: Seq<(K, V)>, i: int)
    requires
        keys_unique(s),
        0 <= i < s.len(),
    ensures
        has_key(s, s[i].0),
        index_of(s, s[i].0) == i,
        val_of(s, s[i].0) == s[i].1,
        as_map(s).contains_key(s[i].0),
        as_map(s)[s[i].0] == s[i].1,
{
    assert(0 <= i < s.len() && s[i].0 == s[i].0);
    let j = index_of(s, s[i].0);
    assert(0 <= j < s.len() && s[j].0 == s[i].0);
    if i != j {
        assert(false);
    }
}

/// Overwriting the value of the entry at index `i` inserts the new value
/// under that entry's key in the view, and keeps the keys unique.
pub proof fn lemma_update_val<K, V>(s: Seq<(K, V)>, i: int, v: V)
    requires
        keys_unique(s),
        0 <= i < s.len(),
    ensures
        keys_unique(s.update(i, (s[i].0, v))),
        as_map(s.update(i, (s[i].0, v))) == as_map(s).insert(s[i].0, v),
{
    let k = s[i].0;
    let t = s.update(i, (k, v));
    assert(forall|m: int| 0 <= m < t.len() ==> t[m].0 == s[m].0);
    assert(keys_unique(t));
    assert forall|kk: K| as_map(t).contains_key(kk) <==> as_map(s).insert(k, v).contains_key(kk) by {
        if has_key(t, kk) {
            let m = index_of(t, kk);
            assert(0 <= m < s.len() && s[m].0 == kk);
        }
        if has_key(s, kk) {
            let m = index_of(s, kk);
            assert(0 <= m < t.len() && t[m].0 == kk);
        }
        if kk == k {
            assert(0 <= i < t.len() && t[i].0 == kk);
        }
    }
    assert forall|kk: K| as_map(t).contains_key(kk) implies as_map(t)[kk] == as_map(s).insert(
        k,
        v,
    )[kk] by {
        let m = index_of(t, kk);
        assert(0 <= m < t.len() && t[m].0 == kk);
        lemma_unique_witness(t, m);
        if kk == k {
            if m != i {
                assert(t[m].0 == t[i].0);
                assert(false);
            }
        } else {
            assert(m != i);
            assert(s[m].0 == kk);
            lemma_unique_witness(s, m);
        }
    }
    assert(as_map(t) =~= as_map(s).insert(k, v));
}

/// Appending an entry whose key is absent inserts it in the view and keeps
/// the keys unique.
pub proof fn lemma_push_new<K, V>(s: Seq<(K, V)>, k: K, v: V)
    requires
        keys_unique(s),
        !has_key(s, k),
    ensures
        keys_unique(s.push((k, v))),
        as_map(s.push((k, v))) == as_map(s).insert(k, v),
{
    let t = s.push((k, v));
    assert forall|i: int, j: int| 0 <= i < j < t.len() implies t[i].0 != t[j].0 by {
        if j == s.len() {
            assert(t[i].0 == s[i].0);
            if s[i].0 == k {
                assert(has_key(s, k));
            }
        }
    }
    assert forall|kk: K| has_key(t, kk) <==> (has_key(s, kk) || kk == k) by {
        if has_key(t, kk) {
            let m = index_of(t, kk);
            if m < s.len() {
                assert(s[m].0 == kk);
            }
        }
        if has_key(s, kk) {
            let m = index_of(s, kk);
            assert(t[m].0 == kk);
        }
        if kk == k {
            assert(t[s.len() as int].0 == kk);
        }
    }
    assert forall|kk: K| has_key(t, kk) implies val_of(t, kk) == as_map(s).insert(k, v)[kk] by {
        let m = index_of(t, kk);
        assert(0 <= m < t.len() && t[m].0 == kk);
        lemma_unique_witness(t, m);
        if kk == k {
            if m != s.len() {
                assert(s[m].0 == k);
                assert(has_key(s, k));
            }
        } else {
            assert(m != s.len());
            assert(s[m].0 == kk);
            lemma_unique_witness(s, m);
        }
    }
    assert(as_map(t) =~= as_map(s).insert(k, v));
}

/// Removing the entry at index `i` removes its key from the view and keeps
/// the keys unique.
pub proof fn lemma_remove_at<K, V>(s: Seq<(K, V)>, i: int)
    requires
        keys_unique(s),
        0 <= i < s.len(),
    ensures
        keys_unique(s.remove(i)),
        as_map(s.remove(i)) == as_map(s).remove(s[i].0),
{
    let k = s[i].0;
    let t = s.remove(i);
    assert(forall|m: int| 0 <= m < i ==> t[m] == s[m]);
    assert(forall|m: int| i <= m < t.len() ==> t[m] == s[m + 1]);
    assert forall|m: int, n: int| 0 <= m < n < t.len() implies t[m].0 != t[n].0 by {
        let ms = if m < i { m } else { m + 1 };
        let ns = if n < i { n } else { n + 1 };
        assert(t[m] == s[ms] && t[n] == s[ns]);
    }
    assert forall|kk: K| has_key(t, kk) <==> (has_key(s, kk) && kk != k) by {
        if has_key(t, kk) {
            let m = index_of(t, kk);
            let ms = if m < i { m } else { m + 1 };
            assert(s[ms].0 == kk);
            if kk == k {
                lemma_unique_witness(s, i);
                assert(ms != i ==> s[ms].0 != s[i].0);
            }
        }
        if has_key(s, kk) && kk != k {
            let m = index_of(s, kk);
            assert(0 <= m < s.len() && s[m].0 == kk);
            assert(m != i);
            if m < i {
                assert(t[m].0 == kk);
            } else {
                assert(t[m - 1].0 == kk);
            }
        }
    }
    assert forall|kk: K| has_key(t, kk) implies val_of(t, kk) == val_of(s, kk) by {
        let m = index_of(t, kk);
        assert(0 <= m < t.len() && t[m].0 == kk);
        lemma_unique_witness(t, m);
        let ms = if m < i { m } else { m + 1 };
        assert(t[m] == s[ms]);
        lemma_unique_witness(s, ms);
    }
    assert(as_map(t) =~= as_map(s).remove(k));
}

/// The elements of the sequence are pairwise distinct.
pub open spec fn distinct<K>(s: Seq<K>) -> bool {
    forall|i: int, j: int| 0 <= i < j < s.len() ==> s[i] != s[j]
}

/// The entry list of map `m` read off along `keys`, in that order: one
/// entry per key of `keys` that `m` contains, carrying its value.
pub open spec fn entries_of<K, V>(keys: Seq<K>, m: Map<K, V>) -> Seq<(K, V)>
    decreases keys.len(),
{
    if keys.len() == 0 {
        Seq::empty()
    } else {
        let rest = entries_of(keys.drop_last(), m);
        if m.contains_key(keys.last()) {
            rest.push((keys.last(), m[keys.last()]))
        } else {
            rest
        }
    }
}

/// Along distinct keys, the entry list has unique keys and denotes exactly
/// the part of `m` whose keys the list mentions, value for value.
pub proof fn lemma_entries_of<K, V>(keys: Seq<K>, m: Map<K, V>)
    requires
        distinct(keys),
    ensures
        keys_unique(entries_of(keys, m)),
        forall|k: K|
            #[trigger] as_map(entries_of(keys, m)).contains_key(k) <==> (m.contains_key(k)
                && keys.contains(k)),
        forall|k: K|
            as_map(entries_of(keys, m)).contains_key(k) ==> as_map(entries_of(keys, m))[k] == m[k],
    decreases keys.len(),
{
    let es = entries_of(keys, m);
    if keys.len() == 0 {
        lemma_empty_map::<K, V>(es);
        assert(forall|k: K| !keys.contains(k));
    } else {
        let kl = keys.last();
        let pre = keys.drop_last();
        assert(distinct(pre));
        lemma_entries_of(pre, m);
        let rest = entries_of(pre, m);
        assert(forall|k: K| keys.contains(k) <==> (pre.contains(k) || k == kl)) by {
            assert forall|k: K| keys.contains(k) implies (pre.contains(k) || k == kl) by {
                let i = choose|i: int| 0 <= i < keys.len() && keys[i] == k;
                if i < pre.len() {
                    assert(pre[i] == k);
                }
            }
            assert forall|k: K| pre.contains(k) implies keys.contains(k) by {
                let i = choose|i: int| 0 <= i < pre.len() && pre[i] == k;
                assert(keys[i] == k);
            }
            assert(keys[keys.len() - 1] == kl);
        }
        if m.contains_key(kl) {
            assert(!has_key(rest, kl)) by {
                if has_key(rest, kl) {
                    assert(as_map(rest).contains_key(kl));
                    let i = choose|i: int| 0 <= i < pre.len() && pre[i] == kl;
                    assert(keys[i] == keys[keys.len() - 1]);
                }
            }
            lemma_push_new(rest, kl, m[kl]);
        }
    }
}

/// A list in which no entry carries key `k` denotes a map without `k`.
pub proof fn lemma_absent<K, V>(s: Seq<(K, V)>, k: K)
    requires
        forall|i: int| 0 <= i < s.len() ==> s[i].0 != k,
    ensures
        !has_key(s, k),
        !as_map(s).contains_key(k),
{
}

/// The view of the empty list is the empty map.
pub proof fn lemma_empty_map<K, V>(s: Seq<(K, V)>)
    requires
        s.len() == 0,
    ensures
        as_map(s) == Map::<K, V>::empty(),
{
    assert(as_map(s) =~= Map::<K, V>::empty());
}

} // verus!
