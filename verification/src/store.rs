//! Spec-level machinery for stores kept as vectors of key/value pairs.
//!
//! The sandbox's caches are insertion-ordered vectors whose keys are pairwise
//! distinct; their contracts speak of the finite `Map` the vector denotes.
use vstd::prelude::*;

verus! {

/// No two entries share a key.
pub open spec fn keys_distinct<K: View, V>(s: Seq<(K, V)>) -> bool {
    forall|i: int, j: int| 0 <= i < j < s.len() ==> s[i].0@ != s[j].0@
}

/// Some entry carries the key `k`.
pub open spec fn has_key<K: View, V>(s: Seq<(K, V)>, k: K::V) -> bool {
    exists|i: int| 0 <= i < s.len() && s[i].0@ == k
}

/// The finite map denoted by an entry vector; a later entry wins, though with
/// [`keys_distinct`] there is never a contest.
pub open spec fn map_of<K: View, V: View>(s: Seq<(K, V)>) -> Map<K::V, V::V>
    decreases s.len(),
{
    if s.len() == 0 {
        Map::empty()
    } else {
        map_of(s.drop_last()).insert(s.last().0@, s.last().1@)
    }
}

/// The denoted map has exactly the keys that some entry carries.
pub proof fn lemma_map_of_contains<K: View, V: View>(s: Seq<(K, V)>, k: K::V)
    ensures
        map_of(s).contains_key(k) <==> has_key(s, k),
    decreases s.len(),
{
    if s.len() == 0 {
    } else {
        lemma_map_of_contains(s.drop_last(), k);
        if s.last().0@ == k {
            assert(s[s.len() - 1].0@ == k);
        } else if map_of(s).contains_key(k) {
            let i = choose|i: int| 0 <= i < s.drop_last().len() && s.drop_last()[i].0@ == k;
            assert(s[i].0@ == k);
        } else if has_key(s, k) {
            let i = choose|i: int| 0 <= i < s.len() && s[i].0@ == k;
            assert(s.drop_last()[i].0@ == k);
        }
    }
}

/// With distinct keys, the entry at index `i` gives the denoted map's value
/// at its key.
pub proof fn lemma_map_of_index<K: View, V: View>(s: Seq<(K, V)>, i: int)
    requires
        keys_distinct(s),
        0 <= i < s.len(),
    ensures
        map_of(s).contains_key(s[i].0@),
        map_of(s)[s[i].0@] == s[i].1@,
    decreases s.len(),
{
    if i == s.len() - 1 {
    } else {
        assert(s.drop_last()[i] == s[i]);
        lemma_map_of_index(s.drop_last(), i);
        assert(s.last().0@ != s[i].0@);
    }
}

/// Appending an entry inserts its binding into the denoted map.
pub proof fn lemma_map_of_push<K: View, V: View>(s: Seq<(K, V)>, k: K, v: V)
    ensures
        map_of(s.push((k, v))) == map_of(s).insert(k@, v@),
{
    assert(s.push((k, v)).drop_last() =~= s);
    assert(s.push((k, v)).last() == (k, v));
}

/// Replacing the entry at index `i` with one carrying the same key updates
/// the denoted map at that key alone.
pub proof fn lemma_map_of_update<K: View, V: View>(s: Seq<(K, V)>, i: int, k: K, v: V)
    requires
        keys_distinct(s),
        0 <= i < s.len(),
        k@ == s[i].0@,
    ensures
        map_of(s.update(i, (k, v))) == map_of(s).insert(k@, v@),
    decreases s.len(),
{
    let t = s.update(i, (k, v));
    if i == s.len() - 1 {
        assert(t.drop_last() =~= s.drop_last());
        assert(t.last() == (k, v));
        assert(map_of(s.drop_last()).insert(s[i].0@, s[i].1@).insert(k@, v@) =~= map_of(
            s.drop_last(),
        ).insert(k@, v@));
    } else {
        assert(t.drop_last() =~= s.drop_last().update(i, (k, v)));
        assert(t.last() == s.last());
        assert(s.drop_last()[i] == s[i]);
        lemma_map_of_update(s.drop_last(), i, k, v);
        assert(s.last().0@ != s[i].0@);
        assert(map_of(s.drop_last()).insert(k@, v@).insert(s.last().0@, s.last().1@) =~= map_of(
            s.drop_last(),
        ).insert(s.last().0@, s.last().1@).insert(k@, v@));
    }
}

/// Appending a fresh key keeps the keys pairwise distinct.
pub proof fn lemma_push_distinct<K: View, V: View>(s: Seq<(K, V)>, k: K, v: V)
    requires
        keys_distinct(s),
        !has_key(s, k@),
    ensures
        keys_distinct(s.push((k, v))),
{
    let t = s.push((k, v));
    assert forall|i: int, j: int| 0 <= i < j < t.len() implies t[i].0@ != t[j].0@ by {
        if j < s.len() {
            assert(t[i] == s[i] && t[j] == s[j]);
        } else {
            assert(t[i] == s[i]);
            assert(t[j] == (k, v));
            assert(!(0 <= i < s.len() && s[i].0@ == k@));
        }
    }
}

/// Replacing an entry with one carrying the same key keeps the keys pairwise
/// distinct.
pub proof fn lemma_update_distinct<K: View, V: View>(s: Seq<(K, V)>, i: int, k: K, v: V)
    requires
        keys_distinct(s),
        0 <= i < s.len(),
        k@ == s[i].0@,
    ensures
        keys_distinct(s.update(i, (k, v))),
{
    let t = s.update(i, (k, v));
    assert forall|a: int, b: int| 0 <= a < b < t.len() implies t[a].0@ != t[b].0@ by {
        assert(t[a].0@ == s[a].0@ && t[b].0@ == s[b].0@);
    }
}

} // verus!
