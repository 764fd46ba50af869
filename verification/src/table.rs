//! Association sequences: the mathematical model of the small
//! insertion-ordered maps used throughout the crate.
//!
//! A `Seq<(K, V)>` is read as a map in which a later entry overrides an
//! earlier one with the same key; most tables in this crate additionally
//! keep their keys distinct, in which case the order of entries is the
//! order of insertion and never affects the map read.

use vstd::prelude::*;

verus! {

/// Some entry of `s` carries the key `k`.
pub open spec fn entries_contain<K, V>(s: Seq<(K, V)>, k: K) -> bool {
    exists|i: int| 0 <= i < s.len() && (#[trigger] s[i]).0 == k
}

/// No two entries of `s` carry the same key.
pub open spec fn distinct_keys<K, V>(s: Seq<(K, V)>) -> bool {
    forall|i: int, j: int| 0 <= i < j < s.len() ==> (#[trigger] s[i]).0 != (#[trigger] s[j]).0
}

/// The map that `s` denotes: a later entry overrides an earlier one.
pub open spec fn entries_map<K, V>(s: Seq<(K, V)>) -> Map<K, V>
    decreases s.len(),
{
    if s.len() == 0 {
        Map::empty()
    } else {
        entries_map(s.drop_last()).insert(s.last().0, s.last().1)
    }
}

pub proof fn lemma_entries_map_dom<K, V>(s: Seq<(K, V)>)
    ensures
        forall|k: K| entries_map(s).dom().contains(k) <==> entries_contain(s, k),
    decreases s.len(),
{
    if s.len() == 0 {
    } else {
        lemma_entries_map_dom(s.drop_last());
        assert forall|k: K| entries_map(s).dom().contains(k) <==> entries_contain(s, k) by {
            if entries_map(s).dom().contains(k) {
                if k == s.last().0 {
                    assert((s[s.len() - 1]).0 == k);
                } else {
                    assert(entries_map(s.drop_last()).dom().contains(k));
                    assert(entries_contain(s.drop_last(), k));
                    let i = choose|i: int|
                        0 <= i < s.drop_last().len() && (#[trigger] s.drop_last()[i]).0 == k;
                    assert(s.drop_last()[i] == s[i]);
                    assert((s[i]).0 == k);
                }
            }
            if entries_contain(s, k) {
                let i = choose|i: int| 0 <= i < s.len() && (#[trigger] s[i]).0 == k;
                if i < s.len() - 1 {
                    assert(s.drop_last()[i] == s[i]);
                    assert(entries_contain(s.drop_last(), k));
                    assert(entries_map(s.drop_last()).dom().contains(k));
                } else {
                    assert(k == s.last().0);
                }
                assert(entries_map(s).dom().contains(k));
            }
        }
    }
}

/// With distinct keys, every entry is visible in the map read.
pub proof fn lemma_entries_map_distinct<K, V>(s: Seq<(K, V)>)
    requires
        distinct_keys(s),
    ensures
        forall|i: int|
            0 <= i < s.len() ==> entries_map(s).dom().contains((#[trigger] s[i]).0)
                && entries_map(s)[s[i].0] == s[i].1,
    decreases s.len(),
{
    if s.len() == 0 {
    } else {
        assert(distinct_keys(s.drop_last()));
        lemma_entries_map_distinct(s.drop_last());
        assert forall|i: int|
            0 <= i < s.len() implies entries_map(s).dom().contains((#[trigger] s[i]).0)
            && entries_map(s)[s[i].0] == s[i].1 by {
            if i < s.len() - 1 {
                assert(s.drop_last()[i] == s[i]);
                assert((s[i]).0 != (s[s.len() - 1]).0);
            }
        }
    }
}

/// Appending an entry adds exactly its key.
pub proof fn lemma_entries_contain_push<K, V>(s: Seq<(K, V)>, e: (K, V), k: K)
    ensures
        entries_contain(s.push(e), k) <==> entries_contain(s, k) || e.0 == k,
{
    let t = s.push(e);
    if entries_contain(t, k) {
        let i = choose|i: int| 0 <= i < t.len() && (#[trigger] t[i]).0 == k;
        if i < s.len() {
            assert((s[i]).0 == k);
        }
    }
    if entries_contain(s, k) {
        let i = choose|i: int| 0 <= i < s.len() && (#[trigger] s[i]).0 == k;
        assert((t[i]).0 == k);
    }
    if e.0 == k {
        assert((t[s.len() as int]).0 == k);
    }
}

/// The position of the entry carrying `k`; meaningful only when
/// `entries_contain(s, k)` holds, and unique under `distinct_keys`.
pub open spec fn index_of_key<K, V>(s: Seq<(K, V)>, k: K) -> int {
    choose|i: int| 0 <= i < s.len() && (#[trigger] s[i]).0 == k
}

/// The value stored under `k`.
pub open spec fn value_of_key<K, V>(s: Seq<(K, V)>, k: K) -> V {
    s[index_of_key(s, k)].1
}

/// Insertion with replacement: what one map-insert step does to the
/// entry sequence.
pub open spec fn spec_insert<K, V>(s: Seq<(K, V)>, k: K, v: V) -> Seq<(K, V)> {
    if entries_contain(s, k) {
        s.update(index_of_key(s, k), (k, v))
    } else {
        s.push((k, v))
    }
}

/// Insertion with replacement keeps keys distinct and acts as a map insert.
pub proof fn lemma_spec_insert<K, V>(s: Seq<(K, V)>, k: K, v: V)
    requires
        distinct_keys(s),
    ensures
        distinct_keys(spec_insert(s, k, v)),
        entries_map(spec_insert(s, k, v)) == entries_map(s).insert(k, v),
        forall|k2: K| entries_contain(spec_insert(s, k, v), k2) <==> entries_contain(s, k2)
            || k2 == k,
{
    let t = spec_insert(s, k, v);
    if entries_contain(s, k) {
        let i = index_of_key(s, k);
        assert(0 <= i < s.len() && (s[i]).0 == k);
        assert(t == s.update(i, ((s[i]).0, v)));
        lemma_entries_map_update(s, i, v);
        assert forall|k2: K| entries_contain(t, k2) implies entries_contain(s, k2) || k2 == k by {
            let j = choose|j: int| 0 <= j < t.len() && (#[trigger] t[j]).0 == k2;
            if j != i {
                assert((s[j]).0 == k2);
            }
        }
        assert forall|k2: K| entries_contain(s, k2) implies entries_contain(t, k2) by {
            let j = choose|j: int| 0 <= j < s.len() && (#[trigger] s[j]).0 == k2;
            if j != i {
                assert((t[j]).0 == k2);
            } else {
                assert((t[i]).0 == k2);
            }
        }
    } else {
        assert(t == s.push((k, v)));
        assert(t.drop_last() =~= s);
        assert forall|i: int, j: int| 0 <= i < j < t.len() implies (#[trigger] t[i]).0 != (
        #[trigger] t[j]).0 by {
            if j == t.len() - 1 {
                assert((t[i]).0 == (s[i]).0);
                assert(!entries_contain(s, k));
                assert((s[i]).0 != k);
            }
        }
        assert forall|k2: K| entries_contain(t, k2) implies entries_contain(s, k2) || k2 == k by {
            let j = choose|j: int| 0 <= j < t.len() && (#[trigger] t[j]).0 == k2;
            if j < s.len() {
                assert((s[j]).0 == k2);
            }
        }
        assert forall|k2: K| entries_contain(s, k2) || k2 == k implies entries_contain(t, k2) by {
            if entries_contain(s, k2) {
                let j = choose|j: int| 0 <= j < s.len() && (#[trigger] s[j]).0 == k2;
                assert((t[j]).0 == k2);
            } else {
                assert((t[t.len() - 1]).0 == k2);
            }
        }
    }
}

/// Replacing the value at an existing key leaves the map read of the rest alone.
pub proof fn lemma_entries_map_update<K, V>(s: Seq<(K, V)>, i: int, v: V)
    requires
        distinct_keys(s),
        0 <= i < s.len(),
    ensures
        entries_map(s.update(i, (s[i].0, v))) == entries_map(s).insert(s[i].0, v),
    decreases s.len(),
{
    let t = s.update(i, (s[i].0, v));
    if i == s.len() - 1 {
        assert(t.drop_last() =~= s.drop_last());
    } else {
        assert(distinct_keys(s.drop_last()));
        lemma_entries_map_update(s.drop_last(), i, v);
        assert(t.drop_last() =~= s.drop_last().update(i, (s[i].0, v)));
        assert(t.last() == s.last());
        lemma_entries_map_dom(s.drop_last());
        assert((s[i]).0 != (s[s.len() - 1]).0);
        assert(entries_map(t) =~= entries_map(s).insert(s[i].0, v));
    }
}

} // verus!
