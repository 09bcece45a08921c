//! Sequences of key-value pairs without repeated keys, read as finite maps.

use vstd::prelude::*;

verus! {

/// No key occurs at two positions.
pub open spec fn distinct_keys<K, V>(s: Seq<(K, V)>) -> bool {
    forall|i: int, j: int| 0 <= i < s.len() && 0 <= j < s.len() && s[i].0 == s[j].0 ==> i == j
}

/// Some pair carries the key.
pub open spec fn has_key<K, V>(s: Seq<(K, V)>, k: K) -> bool {
    exists|i: int| 0 <= i < s.len() && s[i].0 == k
}

/// A position at which the key stands.
pub open spec fn position<K, V>(s: Seq<(K, V)>, k: K) -> int {
    choose|i: int| 0 <= i < s.len() && s[i].0 == k
}

/// The map that sends each key of the sequence to the value beside it.
pub open spec fn as_map<K, V>(s: Seq<(K, V)>) -> Map<K, V> {
    Map::new(|k: K| has_key(s, k), |k: K| s[position(s, k)].1)
}

/// With distinct keys, the position of a key is the one place where it stands.
pub proof fn lemma_position<K, V>(s: Seq<(K, V)>, i: int)
    requires
        distinct_keys(s),
        0 <= i < s.len(),
    ensures
        has_key(s, s[i].0),
        position(s, s[i].0) == i,
        as_map(s).contains_key(s[i].0),
        as_map(s)[s[i].0] == s[i].1,
{
}

/// A key of the map stands somewhere in the sequence, with its value.
pub proof fn lemma_lookup<K, V>(s: Seq<(K, V)>, k: K)
    requires
        as_map(s).contains_key(k),
    ensures
        0 <= position(s, k) < s.len(),
        s[position(s, k)].0 == k,
        s[position(s, k)].1 == as_map(s)[k],
{
}

/// The empty sequence is the empty map.
pub proof fn lemma_empty<K, V>()
    ensures
        distinct_keys(Seq::<(K, V)>::empty()),
        as_map(Seq::<(K, V)>::empty()) == Map::<K, V>::empty(),
{
    assert(as_map(Seq::<(K, V)>::empty()) =~= Map::<K, V>::empty());
}

/// Appending a pair with a new key inserts it into the map.
pub proof fn lemma_push<K, V>(s: Seq<(K, V)>, k: K, v: V)
    requires
        distinct_keys(s),
        !has_key(s, k),
    ensures
        distinct_keys(s.push((k, v))),
        as_map(s.push((k, v))) == as_map(s).insert(k, v),
{
    let t = s.push((k, v));
    assert(distinct_keys(t)) by {
        assert forall|i: int, j: int|
            0 <= i < t.len() && 0 <= j < t.len() && t[i].0 == t[j].0 implies i == j by {
            if i < s.len() && j < s.len() {
                assert(s[i].0 == s[j].0);
            } else if i < s.len() {
                assert(s[i].0 == k);
            } else if j < s.len() {
                assert(s[j].0 == k);
            }
        }
    }
    assert forall|q: K| as_map(t).contains_key(q) <==> as_map(s).insert(k, v).contains_key(
        q,
    ) by {
        if has_key(t, q) {
            let i = position(t, q);
            if i < s.len() {
                assert(s[i].0 == q);
            }
        }
        if has_key(s, q) {
            let i = position(s, q);
            assert(t[i].0 == q);
        }
        if q == k {
            assert(t[s.len() as int].0 == q);
        }
    }
    assert forall|q: K| as_map(t).contains_key(q) implies as_map(t)[q] == as_map(s).insert(
        k,
        v,
    )[q] by {
        let i = position(t, q);
        lemma_position(t, i);
        if i < s.len() {
            assert(s[i].0 == q);
            lemma_position(s, i);
        }
    }
    assert(as_map(t) =~= as_map(s).insert(k, v));
}

/// Taking out the pair at a position removes its key from the map.
pub proof fn lemma_remove<K, V>(s: Seq<(K, V)>, i: int)
    requires
        distinct_keys(s),
        0 <= i < s.len(),
    ensures
        distinct_keys(s.remove(i)),
        as_map(s.remove(i)) == as_map(s).remove(s[i].0),
{
    let t = s.remove(i);
    let k = s[i].0;
    assert forall|a: int| 0 <= a < t.len() implies t[a] == s[if a < i { a } else { a + 1 }] by {}
    assert(distinct_keys(t)) by {
        assert forall|a: int, b: int|
            0 <= a < t.len() && 0 <= b < t.len() && t[a].0 == t[b].0 implies a == b by {
            let a2 = if a < i { a } else { a + 1 };
            let b2 = if b < i { b } else { b + 1 };
            assert(s[a2].0 == s[b2].0);
        }
    }
    assert forall|q: K| as_map(t).contains_key(q) <==> as_map(s).remove(k).contains_key(q) by {
        if has_key(t, q) {
            let a = position(t, q);
            let a2 = if a < i { a } else { a + 1 };
            assert(s[a2].0 == q);
            assert(a2 != i);
        }
        if has_key(s, q) && q != k {
            let a = position(s, q);
            let a2 = if a < i { a } else { a - 1 };
            assert(t[a2].0 == q);
        }
    }
    assert forall|q: K| as_map(t).contains_key(q) implies as_map(t)[q] == as_map(s).remove(
        k,
    )[q] by {
        let a = position(t, q);
        lemma_position(t, a);
        let a2 = if a < i { a } else { a + 1 };
        assert(s[a2].0 == q);
        lemma_position(s, a2);
    }
    assert(as_map(t) =~= as_map(s).remove(k));
}

/// Replacing the value at a position replaces the value of its key.
pub proof fn lemma_update<K, V>(s: Seq<(K, V)>, i: int, v: V)
    requires
        distinct_keys(s),
        0 <= i < s.len(),
    ensures
        distinct_keys(s.update(i, (s[i].0, v))),
        as_map(s.update(i, (s[i].0, v))) == as_map(s).insert(s[i].0, v),
{
    let k = s[i].0;
    let t = s.update(i, (k, v));
    assert forall|a: int| 0 <= a < t.len() implies t[a].0 == s[a].0 by {}
    assert(distinct_keys(t)) by {
        assert forall|a: int, b: int|
            0 <= a < t.len() && 0 <= b < t.len() && t[a].0 == t[b].0 implies a == b by {
            assert(s[a].0 == s[b].0);
        }
    }
    assert forall|q: K| as_map(t).contains_key(q) <==> as_map(s).insert(k, v).contains_key(
        q,
    ) by {
        if has_key(t, q) {
            let a = position(t, q);
            assert(s[a].0 == q);
        }
        if has_key(s, q) {
            let a = position(s, q);
            assert(t[a].0 == q);
        }
        if q == k {
            assert(t[i].0 == q);
        }
    }
    assert forall|q: K| as_map(t).contains_key(q) implies as_map(t)[q] == as_map(s).insert(
        k,
        v,
    )[q] by {
        let a = position(t, q);
        lemma_position(t, a);
        assert(s[a].0 == q);
        lemma_position(s, a);
    }
    assert(as_map(t) =~= as_map(s).insert(k, v));
}

/// The map has one key for each pair.
pub proof fn lemma_size<K, V>(s: Seq<(K, V)>)
    requires
        distinct_keys(s),
    ensures
        as_map(s).dom().finite(),
        as_map(s).dom().len() == s.len(),
    decreases s.len(),
{
    if s.len() == 0 {
        assert(s =~= Seq::<(K, V)>::empty());
        lemma_empty::<K, V>();
    } else {
        let front = s.drop_last();
        let last = s.last();
        assert(distinct_keys(front)) by {
            assert forall|i: int, j: int|
                0 <= i < front.len() && 0 <= j < front.len() && front[i].0
                    == front[j].0 implies i == j by {
                assert(s[i].0 == s[j].0);
            }
        }
        assert(!has_key(front, last.0)) by {
            if has_key(front, last.0) {
                let i = position(front, last.0);
                assert(s[i].0 == s[s.len() - 1].0);
            }
        }
        lemma_size(front);
        lemma_push(front, last.0, last.1);
        assert(front.push((last.0, last.1)) =~= s);
    }
}

/// Changing every value by one function changes every value of the map by it.
pub proof fn lemma_map_values<K, V>(s: Seq<(K, V)>, t: Seq<(K, V)>, f: spec_fn(V) -> V)
    requires
        distinct_keys(s),
        t.len() == s.len(),
        forall|i: int| 0 <= i < s.len() ==> #[trigger] t[i] == (s[i].0, f(s[i].1)),
    ensures
        distinct_keys(t),
        as_map(t) == as_map(s).map_values(f),
{
    assert(distinct_keys(t)) by {
        assert forall|a: int, b: int|
            0 <= a < t.len() && 0 <= b < t.len() && t[a].0 == t[b].0 implies a == b by {
            assert(t[a] == (s[a].0, f(s[a].1)) && t[b] == (s[b].0, f(s[b].1)));
            assert(s[a].0 == s[b].0);
        }
    }
    assert forall|q: K| as_map(t).contains_key(q) <==> as_map(s).contains_key(q) by {
        if has_key(t, q) {
            let a = position(t, q);
            assert(t[a] == (s[a].0, f(s[a].1)));
            assert(s[a].0 == q);
        }
        if has_key(s, q) {
            let a = position(s, q);
            assert(t[a] == (s[a].0, f(s[a].1)));
            assert(t[a].0 == q);
        }
    }
    assert forall|q: K| as_map(t).contains_key(q) implies as_map(t)[q] == f(as_map(s)[q]) by {
        let a = position(t, q);
        lemma_position(t, a);
        assert(t[a] == (s[a].0, f(s[a].1)));
        lemma_position(s, a);
    }
    assert(as_map(t) =~= as_map(s).map_values(f));
}

} // verus!
