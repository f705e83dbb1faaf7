//! Association sequences: the specification-level view of the small
//! string-keyed maps the tree uses (a node's value map, the path index).
//! A map is a sequence of key/value pairs with pairwise distinct keys;
//! later entries win, which makes `assoc_map` insensitive to that choice.

use vstd::prelude::*;

verus! {

/// The mathematical map described by a sequence of key/value pairs
/// (later pairs win).
pub open spec fn assoc_map<V>(s: Seq<(Seq<char>, V)>) -> Map<Seq<char>, V>
    decreases s.len(),
{
    if s.len() == 0 {
        Map::empty()
    } else {
        assoc_map(s.drop_last()).insert(s.last().0, s.last().1)
    }
}

/// Pairwise distinct keys.
pub open spec fn assoc_wf<V>(s: Seq<(Seq<char>, V)>) -> bool {
    forall|i: int, j: int| 0 <= i < j < s.len() ==> s[i].0 != s[j].0
}

/// Overwriting insertion at the sequence level: replace the first pair
/// with the key in place, or append a new pair at the end.
pub open spec fn assoc_insert<V>(s: Seq<(Seq<char>, V)>, k: Seq<char>, v: V) -> Seq<
    (Seq<char>, V),
>
    decreases s.len(),
{
    if s.len() == 0 {
        seq![(k, v)]
    } else if s[0].0 == k {
        seq![(k, v)] + s.drop_first()
    } else {
        seq![s[0]] + assoc_insert(s.drop_first(), k, v)
    }
}

/// Every pair of a well-formed association sequence is found by the map.
pub proof fn lemma_assoc_map_index<V>(s: Seq<(Seq<char>, V)>, i: int)
    requires
        assoc_wf(s),
        0 <= i < s.len(),
    ensures
        assoc_map(s).contains_key(s[i].0),
        assoc_map(s)[s[i].0] == s[i].1,
    decreases s.len(),
{
    if i == s.len() - 1 {
    } else {
        assert(s.drop_last()[i] == s[i]);
        assert(assoc_wf(s.drop_last()));
        lemma_assoc_map_index(s.drop_last(), i);
        assert(s[i].0 != s.last().0);
    }
}

/// A key under none of the pairs is not in the map.
pub proof fn lemma_assoc_map_absent<V>(s: Seq<(Seq<char>, V)>, k: Seq<char>)
    requires
        forall|i: int| 0 <= i < s.len() ==> s[i].0 != k,
    ensures
        !assoc_map(s).contains_key(k),
    decreases s.len(),
{
    if s.len() > 0 {
        assert(forall|i: int|
            0 <= i < s.drop_last().len() ==> #[trigger] s.drop_last()[i].0 != k);
        lemma_assoc_map_absent(s.drop_last(), k);
    }
}

/// Every key of the map is the key of some pair.
pub proof fn lemma_assoc_map_domain<V>(s: Seq<(Seq<char>, V)>, k: Seq<char>)
    requires
        assoc_map(s).contains_key(k),
    ensures
        exists|i: int| 0 <= i < s.len() && s[i].0 == k,
    decreases s.len(),
{
    if s.len() > 0 {
        if s.last().0 != k {
            lemma_assoc_map_domain(s.drop_last(), k);
            let i = choose|i: int| 0 <= i < s.drop_last().len() && s.drop_last()[i].0 == k;
            assert(s[i].0 == k);
        } else {
            assert(s[s.len() - 1].0 == k);
        }
    }
}

/// The pairs of an insertion result: the inserted pair, present once,
/// beside every old pair whose key is not the inserted key.
pub proof fn lemma_assoc_insert_pairs<V>(s: Seq<(Seq<char>, V)>, k: Seq<char>, v: V)
    requires
        assoc_wf(s),
    ensures
        assoc_wf(assoc_insert(s, k, v)),
        forall|j: int|
            0 <= j < assoc_insert(s, k, v).len() ==> (#[trigger] assoc_insert(s, k, v)[j] == (k, v)
                || (exists|m: int|
                0 <= m < s.len() && s[m] == assoc_insert(s, k, v)[j] && s[m].0 != k)),
        exists|j: int| 0 <= j < assoc_insert(s, k, v).len() && #[trigger] assoc_insert(s, k, v)[j]
            == (k, v),
        forall|m: int|
            0 <= m < s.len() ==> (#[trigger] s[m].0 == k || (exists|j: int|
                0 <= j < assoc_insert(s, k, v).len() && assoc_insert(s, k, v)[j] == s[m])),
    decreases s.len(),
{
    let t = assoc_insert(s, k, v);
    if s.len() == 0 {
        assert(t =~= seq![(k, v)]);
        assert(t[0] == (k, v));
    } else if s[0].0 == k {
        assert(t == seq![(k, v)] + s.drop_first());
        assert(t[0] == (k, v));
        assert(forall|j: int| 1 <= j < t.len() ==> t[j] == s[j]);
        assert(forall|j: int| 1 <= j < t.len() ==> #[trigger] s[j].0 != k);
        assert(assoc_wf(t)) by {
            assert(forall|i: int, j: int| 1 <= i < j < t.len() ==> #[trigger] t[i].0 != #[trigger] t[j].0);
            assert(forall|j: int| 1 <= j < t.len() ==> t[0].0 != #[trigger] t[j].0);
        }
        assert(forall|m: int|
            1 <= m < s.len() ==> t[m] == #[trigger] s[m]);
    } else {
        let sdf = s.drop_first();
        assert(assoc_wf(sdf));
        lemma_assoc_insert_pairs(sdf, k, v);
        let r = assoc_insert(sdf, k, v);
        assert(t == seq![s[0]] + r);
        assert(t[0] == s[0]);
        assert(forall|j: int| 1 <= j < t.len() ==> t[j] == r[j - 1]);
        assert(forall|m: int| 0 <= m < sdf.len() ==> sdf[m] == #[trigger] s[m + 1]);
        // the inserted pair is in `t`
        let jr = choose|j: int| 0 <= j < r.len() && r[j] == (k, v);
        assert(t[jr + 1] == (k, v));
        // well-formedness: the head key differs from every key in `r`
        assert(assoc_wf(t)) by {
            assert forall|j: int| 1 <= j < t.len() implies t[0].0 != #[trigger] t[j].0 by {
                if r[j - 1] == (k, v) {
                } else {
                    let m = choose|m: int|
                        0 <= m < sdf.len() && sdf[m] == r[j - 1] && sdf[m].0 != k;
                    assert(s[m + 1] == r[j - 1]);
                    assert(s[0].0 != s[m + 1].0);
                }
            }
            assert(forall|i: int, j: int| 1 <= i < j < t.len() ==> #[trigger] t[i].0 != #[trigger] t[j].0);
        }
        // every pair of `t` is the inserted pair or an old pair
        assert forall|j: int|
            0 <= j < t.len() implies (#[trigger] t[j] == (k, v) || (exists|m: int|
            0 <= m < s.len() && s[m] == t[j] && s[m].0 != k)) by {
            if j == 0 {
                assert(s[0] == t[0] && s[0].0 != k);
            } else if r[j - 1] == (k, v) {
            } else {
                let m = choose|m: int| 0 <= m < sdf.len() && sdf[m] == r[j - 1] && sdf[m].0 != k;
                assert(s[m + 1] == t[j] && s[m + 1].0 != k);
            }
        }
        // every old pair with another key is in `t`
        assert forall|m: int|
            0 <= m < s.len() implies (#[trigger] s[m].0 == k || (exists|j: int|
            0 <= j < t.len() && t[j] == s[m])) by {
            if m == 0 {
                assert(t[0] == s[0]);
            } else if sdf[m - 1].0 == k {
            } else {
                let j = choose|j: int| 0 <= j < r.len() && r[j] == sdf[m - 1];
                assert(t[j + 1] == s[m]);
            }
        }
    }
}

/// Insertion at a present key replaces its pair in place.
pub proof fn lemma_assoc_insert_found<V>(s: Seq<(Seq<char>, V)>, k: Seq<char>, v: V, i: int)
    requires
        0 <= i < s.len(),
        s[i].0 == k,
        forall|j: int| 0 <= j < i ==> s[j].0 != k,
    ensures
        assoc_insert(s, k, v) == s.update(i, (k, v)),
    decreases s.len(),
{
    if i == 0 {
        assert(assoc_insert(s, k, v) =~= s.update(0, (k, v)));
    } else {
        let sdf = s.drop_first();
        assert(sdf[i - 1].0 == k);
        assert(forall|j: int| 0 <= j < i - 1 ==> #[trigger] sdf[j].0 != k);
        lemma_assoc_insert_found(sdf, k, v, i - 1);
        assert(assoc_insert(s, k, v) =~= s.update(i, (k, v)));
    }
}

/// Insertion at an absent key appends the pair at the end.
pub proof fn lemma_assoc_insert_absent<V>(s: Seq<(Seq<char>, V)>, k: Seq<char>, v: V)
    requires
        forall|j: int| 0 <= j < s.len() ==> s[j].0 != k,
    ensures
        assoc_insert(s, k, v) == s.push((k, v)),
    decreases s.len(),
{
    if s.len() == 0 {
        assert(assoc_insert(s, k, v) =~= s.push((k, v)));
    } else {
        let sdf = s.drop_first();
        assert(forall|j: int| 0 <= j < sdf.len() ==> #[trigger] sdf[j].0 != k);
        lemma_assoc_insert_absent(sdf, k, v);
        assert(assoc_insert(s, k, v) =~= s.push((k, v)));
    }
}

/// Sequence-level insertion means map-level insertion.
pub proof fn lemma_assoc_insert_map<V>(s: Seq<(Seq<char>, V)>, k: Seq<char>, v: V)
    requires
        assoc_wf(s),
    ensures
        assoc_wf(assoc_insert(s, k, v)),
        assoc_map(assoc_insert(s, k, v)) == assoc_map(s).insert(k, v),
{
    lemma_assoc_insert_pairs(s, k, v);
    lemma_assoc_eq_on_pairs(assoc_insert(s, k, v), s, k, v);
}

/// Two association sequences whose pair lists describe the same map.
proof fn lemma_assoc_eq_on_pairs<V>(t: Seq<(Seq<char>, V)>, s: Seq<(Seq<char>, V)>, k: Seq<
    char,
>, v: V)
    requires
        assoc_wf(t),
        assoc_wf(s),
        t.len() > 0,
        forall|j: int|
            0 <= j < t.len() ==> (#[trigger] t[j] == (k, v) || (exists|m: int|
                0 <= m < s.len() && s[m] == t[j] && s[m].0 != k)),
        exists|j: int| 0 <= j < t.len() && #[trigger] t[j] == (k, v),
        forall|m: int|
            0 <= m < s.len() ==> (#[trigger] s[m].0 == k || (exists|j: int|
                0 <= j < t.len() && t[j] == s[m])),
    ensures
        assoc_map(t) == assoc_map(s).insert(k, v),
{
    let mt = assoc_map(t);
    let ms = assoc_map(s).insert(k, v);
    assert forall|key: Seq<char>| #[trigger]
        mt.contains_key(key) implies ms.contains_key(key) && ms[key] == mt[key] by {
        lemma_assoc_map_domain(t, key);
        let j = choose|j: int| 0 <= j < t.len() && t[j].0 == key;
        lemma_assoc_map_index(t, j);
        if t[j] == (k, v) {
            assert(ms.contains_key(key) && ms[key] == v);
        } else {
            let m = choose|m: int| 0 <= m < s.len() && s[m] == t[j] && s[m].0 != k;
            lemma_assoc_map_index(s, m);
        }
    }
    assert forall|key: Seq<char>| #[trigger]
        ms.contains_key(key) implies mt.contains_key(key) by {
        if key == k {
            let j = choose|j: int| 0 <= j < t.len() && t[j] == (k, v);
            lemma_assoc_map_index(t, j);
        } else {
            lemma_assoc_map_domain(s, key);
            let m = choose|m: int| 0 <= m < s.len() && s[m].0 == key;
            let j = choose|j: int| 0 <= j < t.len() && t[j] == s[m];
            lemma_assoc_map_index(t, j);
        }
    }
    assert(mt =~= ms);
}

} // verus!
