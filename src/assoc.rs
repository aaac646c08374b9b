//! Association lists keyed by text, and the maps they denote.
use vstd::prelude::*;

verus! {

/// No key occurs twice in the list.
pub open spec fn keys_distinct<V>(s: Seq<(Seq<char>, V)>) -> bool {
    forall|i: int, j: int|
        #![trigger s[i], s[j]]
        0 <= i < s.len() && 0 <= j < s.len() && i != j ==> s[i].0 != s[j].0
}

/// The map denoted by an association list; a later entry wins over an earlier one.
pub open spec fn assoc_map<V>(s: Seq<(Seq<char>, V)>) -> Map<Seq<char>, V>
    decreases s.len(),
{
    if s.len() == 0 {
        Map::empty()
    } else {
        assoc_map(s.drop_last()).insert(s.last().0, s.last().1)
    }
}

/// Keeps the entries on which `f` gives a value, replacing each by that value.
pub open spec fn filter_map_entries<V>(
    s: Seq<(Seq<char>, V)>,
    f: spec_fn(V) -> Option<V>,
) -> Seq<(Seq<char>, V)>
    decreases s.len(),
{
    if s.len() == 0 {
        Seq::empty()
    } else {
        let rest = filter_map_entries(s.drop_last(), f);
        match f(s.last().1) {
            Some(v) => rest.push((s.last().0, v)),
            None => rest,
        }
    }
}

/// The map counterpart of `filter_map_entries`.
pub open spec fn filter_map_map<V>(
    m: Map<Seq<char>, V>,
    f: spec_fn(V) -> Option<V>,
) -> Map<Seq<char>, V> {
    Map::new(|k: Seq<char>| m.contains_key(k) && f(m[k]) is Some, |k: Seq<char>| f(m[k])->Some_0)
}

pub proof fn lemma_distinct_drop_last<V>(s: Seq<(Seq<char>, V)>)
    requires
        keys_distinct(s),
        s.len() > 0,
    ensures
        keys_distinct(s.drop_last()),
{
    let t = s.drop_last();
    assert forall|i: int, j: int|
        #![trigger t[i], t[j]]
        0 <= i < t.len() && 0 <= j < t.len() && i != j implies t[i].0 != t[j].0 by {
        assert(t[i] == s[i]);
        assert(t[j] == s[j]);
    }
}

/// A key is in the map exactly when some entry carries it.
pub proof fn lemma_assoc_keys<V>(s: Seq<(Seq<char>, V)>, k: Seq<char>)
    ensures
        assoc_map(s).contains_key(k) <==> exists|i: int| 0 <= i < s.len() && s[i].0 == k,
    decreases s.len(),
{
    if s.len() > 0 {
        let t = s.drop_last();
        lemma_assoc_keys(t, k);
        if assoc_map(t).contains_key(k) {
            let i = choose|i: int| 0 <= i < t.len() && t[i].0 == k;
            assert(s[i].0 == k);
        }
        if exists|i: int| 0 <= i < s.len() && s[i].0 == k {
            let i = choose|i: int| 0 <= i < s.len() && s[i].0 == k;
            if i < s.len() - 1 {
                assert(t[i].0 == k);
            }
        }
    }
}

/// With distinct keys, each entry is found in the map.
pub proof fn lemma_assoc_at<V>(s: Seq<(Seq<char>, V)>, i: int)
    requires
        keys_distinct(s),
        0 <= i < s.len(),
    ensures
        assoc_map(s).contains_key(s[i].0),
        assoc_map(s)[s[i].0] == s[i].1,
    decreases s.len(),
{
    if i < s.len() - 1 {
        let t = s.drop_last();
        lemma_distinct_drop_last(s);
        lemma_assoc_at(t, i);
        assert(t[i] == s[i]);
        assert(s[i].0 != s[s.len() - 1].0);
    }
}

/// Appending an entry inserts it.
pub proof fn lemma_assoc_push<V>(s: Seq<(Seq<char>, V)>, e: (Seq<char>, V))
    ensures
        assoc_map(s.push(e)) == assoc_map(s).insert(e.0, e.1),
{
    assert(s.push(e).drop_last() =~= s);
}

/// Removing an entry removes its key.
pub proof fn lemma_assoc_remove<V>(s: Seq<(Seq<char>, V)>, i: int)
    requires
        keys_distinct(s),
        0 <= i < s.len(),
    ensures
        keys_distinct(s.remove(i)),
        assoc_map(s.remove(i)) =~= assoc_map(s).remove(s[i].0),
{
    let r = s.remove(i);
    assert forall|a: int, b: int|
        #![trigger r[a], r[b]]
        0 <= a < r.len() && 0 <= b < r.len() && a != b implies r[a].0 != r[b].0 by {
        let a2 = if a < i { a } else { a + 1 };
        let b2 = if b < i { b } else { b + 1 };
        assert(r[a] == s[a2]);
        assert(r[b] == s[b2]);
    }
    assert forall|k: Seq<char>|
        assoc_map(r).contains_key(k) <==> assoc_map(s).remove(s[i].0).contains_key(k) by {
        lemma_assoc_keys(r, k);
        lemma_assoc_keys(s, k);
        if assoc_map(r).contains_key(k) {
            let j = choose|j: int| 0 <= j < r.len() && r[j].0 == k;
            if j < i {
                assert(r[j] == s[j]);
            } else {
                assert(r[j] == s[j + 1]);
            }
        }
        if assoc_map(s).remove(s[i].0).contains_key(k) {
            let j = choose|j: int| 0 <= j < s.len() && s[j].0 == k;
            if j < i {
                assert(r[j] == s[j]);
            } else {
                assert(r[j - 1] == s[j]);
            }
        }
    }
    assert forall|k: Seq<char>| assoc_map(r).contains_key(k) implies assoc_map(r)[k]
        == assoc_map(s)[k] by {
        lemma_assoc_keys(r, k);
        let j = choose|j: int| 0 <= j < r.len() && r[j].0 == k;
        lemma_assoc_at(r, j);
        if j < i {
            assert(r[j] == s[j]);
            lemma_assoc_at(s, j);
        } else {
            assert(r[j] == s[j + 1]);
            lemma_assoc_at(s, j + 1);
        }
    }
}

/// Replacing the value of an entry updates its key.
pub proof fn lemma_assoc_update<V>(s: Seq<(Seq<char>, V)>, i: int, v: V)
    requires
        keys_distinct(s),
        0 <= i < s.len(),
    ensures
        keys_distinct(s.update(i, (s[i].0, v))),
        assoc_map(s.update(i, (s[i].0, v))) =~= assoc_map(s).insert(s[i].0, v),
{
    let r = s.update(i, (s[i].0, v));
    assert forall|a: int, b: int|
        #![trigger r[a], r[b]]
        0 <= a < r.len() && 0 <= b < r.len() && a != b implies r[a].0 != r[b].0 by {
        assert(r[a].0 == s[a].0);
        assert(r[b].0 == s[b].0);
    }
    assert forall|k: Seq<char>|
        assoc_map(r).contains_key(k) <==> assoc_map(s).insert(s[i].0, v).contains_key(k) by {
        lemma_assoc_keys(r, k);
        lemma_assoc_keys(s, k);
        if assoc_map(r).contains_key(k) {
            let j = choose|j: int| 0 <= j < r.len() && r[j].0 == k;
            assert(s[j].0 == k);
        }
        if assoc_map(s).contains_key(k) {
            let j = choose|j: int| 0 <= j < s.len() && s[j].0 == k;
            assert(r[j].0 == k);
        }
        lemma_assoc_at(r, i);
    }
    assert forall|k: Seq<char>| assoc_map(r).contains_key(k) implies assoc_map(r)[k]
        == assoc_map(s).insert(s[i].0, v)[k] by {
        lemma_assoc_keys(r, k);
        let j = choose|j: int| 0 <= j < r.len() && r[j].0 == k;
        lemma_assoc_at(r, j);
        if j != i {
            lemma_assoc_at(s, j);
        }
    }
}

/// Filtering an association list filters the map it denotes.
pub proof fn lemma_filter_map<V>(s: Seq<(Seq<char>, V)>, f: spec_fn(V) -> Option<V>)
    requires
        keys_distinct(s),
    ensures
        keys_distinct(filter_map_entries(s, f)),
        assoc_map(filter_map_entries(s, f)) =~= filter_map_map(assoc_map(s), f),
    decreases s.len(),
{
    if s.len() > 0 {
        let t = s.drop_last();
        let lk = s.last().0;
        let lv = s.last().1;
        lemma_distinct_drop_last(s);
        lemma_filter_map(t, f);
        let rt = filter_map_entries(t, f);
        lemma_assoc_keys(t, lk);
        if assoc_map(t).contains_key(lk) {
            let i = choose|i: int| 0 <= i < t.len() && t[i].0 == lk;
            assert(s[i].0 == s[s.len() - 1].0);
        }
        match f(lv) {
            Some(v) => {
                let r = rt.push((lk, v));
                assert forall|a: int, b: int|
                    #![trigger r[a], r[b]]
                    0 <= a < r.len() && 0 <= b < r.len() && a != b implies r[a].0 != r[b].0 by {
                    if a < rt.len() {
                        lemma_assoc_at(rt, a);
                        assert(r[a] == rt[a]);
                    }
                    if b < rt.len() {
                        lemma_assoc_at(rt, b);
                        assert(r[b] == rt[b]);
                    }
                }
                lemma_assoc_push(rt, (lk, v));
            },
            None => {},
        }
    }
}

} // verus!
