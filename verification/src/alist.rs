//! Keyed vectors.
//!
//! Every table of the state store is a vector of `(String, value)` entries
//! with pairwise distinct keys, read and written through the map it denotes.
//! This keeps the stored arrangement (insertion order) available to callers
//! while contracts speak of [`alist_map`].
use vstd::prelude::*;

verus! {

/// The map denoted by a keyed vector; with distinct keys each key denotes its
/// single entry's value.
pub open spec fn alist_map<V: DeepView>(s: Seq<(String, V)>) -> Map<Seq<char>, V::V>
    decreases s.len(),
{
    if s.len() == 0 {
        Map::empty()
    } else {
        alist_map(s.drop_last()).insert(s.last().0@, s.last().1.deep_view())
    }
}

/// Keys are pairwise distinct.
pub open spec fn unique_keys<V>(s: Seq<(String, V)>) -> bool {
    forall|i: int, j: int| 0 <= i < j < s.len() ==> s[i].0@ != s[j].0@
}

/// A key is in the map exactly when some entry carries it.
pub proof fn lemma_alist_map_domain<V: DeepView>(s: Seq<(String, V)>, k: Seq<char>)
    ensures
        alist_map(s).contains_key(k) <==> exists|i: int| 0 <= i < s.len() && s[i].0@ == k,
    decreases s.len(),
{
    if s.len() > 0 {
        lemma_alist_map_domain(s.drop_last(), k);
        if s.last().0@ == k {
            assert(s[s.len() - 1].0@ == k);
        } else {
            if exists|i: int| 0 <= i < s.len() && s[i].0@ == k {
                let i = choose|i: int| 0 <= i < s.len() && s[i].0@ == k;
                assert(s.drop_last()[i].0@ == k);
            }
        }
    }
}

/// With distinct keys, each entry's key denotes that entry's value.
pub proof fn lemma_alist_map_index<V: DeepView>(s: Seq<(String, V)>, i: int)
    requires
        unique_keys(s),
        0 <= i < s.len(),
    ensures
        alist_map(s).contains_key(s[i].0@),
        alist_map(s)[s[i].0@] == s[i].1.deep_view(),
    decreases s.len(),
{
    if i == s.len() - 1 {
    } else {
        lemma_alist_map_index(s.drop_last(), i);
    }
}

/// Replacing the entry at `i` by one with the same key updates the map at
/// that key.
pub proof fn lemma_alist_map_update<V: DeepView>(s: Seq<(String, V)>, i: int, p: (String, V))
    requires
        unique_keys(s),
        0 <= i < s.len(),
        p.0@ == s[i].0@,
    ensures
        alist_map(s.update(i, p)) =~= alist_map(s).insert(p.0@, p.1.deep_view()),
        unique_keys(s.update(i, p)),
    decreases s.len(),
{
    if i == s.len() - 1 {
        assert(s.update(i, p).drop_last() =~= s.drop_last());
    } else {
        lemma_alist_map_update(s.drop_last(), i, p);
        assert(s.update(i, p).drop_last() =~= s.drop_last().update(i, p));
        assert(s.update(i, p).last() == s.last());
        assert(s.last().0@ != p.0@);
    }
}

/// Removing the entry at `i` removes its key from the map.
pub proof fn lemma_alist_map_remove<V: DeepView>(s: Seq<(String, V)>, i: int)
    requires
        unique_keys(s),
        0 <= i < s.len(),
    ensures
        alist_map(s.remove(i)) =~= alist_map(s).remove(s[i].0@),
        unique_keys(s.remove(i)),
    decreases s.len(),
{
    if i == s.len() - 1 {
        assert(s.remove(i) =~= s.drop_last());
        lemma_alist_map_domain(s.drop_last(), s[i].0@);
        assert(alist_map(s.drop_last()).remove(s[i].0@) =~= alist_map(s.drop_last()));
    } else {
        lemma_alist_map_remove(s.drop_last(), i);
        assert(s.remove(i).drop_last() =~= s.drop_last().remove(i));
        assert(s.remove(i).last() == s.last());
    }
}

/// Appending an entry with a fresh key inserts it into the map.
pub proof fn lemma_alist_map_push<V: DeepView>(s: Seq<(String, V)>, p: (String, V))
    requires
        unique_keys(s),
        forall|i: int| 0 <= i < s.len() ==> s[i].0@ != p.0@,
    ensures
        alist_map(s.push(p)) =~= alist_map(s).insert(p.0@, p.1.deep_view()),
        unique_keys(s.push(p)),
        !alist_map(s).contains_key(p.0@),
    decreases s.len(),
{
    assert(s.push(p).drop_last() =~= s);
    lemma_alist_map_domain(s, p.0@);
}

/// The index of the entry carrying the given key, if any entry does.
pub fn alist_find<V: DeepView>(v: &Vec<(String, V)>, k: &String) -> (r: Option<usize>)
    ensures
        match r {
            Some(i) => i < v@.len() && v@[i as int].0@ == k@,
            None => forall|i: int| 0 <= i < v@.len() ==> v@[i].0@ != k@,
        },
{
    let n = v.len();
    let mut i: usize = 0;
    while i < n
        invariant
            i <= n,
            n == v@.len(),
            forall|j: int| 0 <= j < i ==> v@[j].0@ != k@,
        decreases n - i,
    {
        if v[i].0 == *k {
            return Some(i);
        }
        i = i + 1;
    }
    None
}

/// Whether the keys are pairwise distinct.
pub fn keys_unique<V: DeepView>(v: &Vec<(String, V)>) -> (r: bool)
    ensures
        r <==> unique_keys(v@),
{
    let n = v.len();
    let mut i: usize = 0;
    while i < n
        invariant
            i <= n,
            n == v@.len(),
            forall|p: int, q: int| 0 <= p < q < i ==> v@[p].0@ != v@[q].0@,
        decreases n - i,
    {
        let mut j: usize = 0;
        while j < i
            invariant
                j <= i,
                i < n,
                n == v@.len(),
                forall|p: int, q: int| 0 <= p < q < i ==> v@[p].0@ != v@[q].0@,
                forall|p: int| 0 <= p < j ==> v@[p].0@ != v@[i as int].0@,
            decreases i - j,
        {
            if v[j].0 == v[i].0 {
                return false;
            }
            j = j + 1;
        }
        i = i + 1;
    }
    true
}

/// The sum of a measure over the elements of a sequence.
pub open spec fn sum_by<V>(s: Seq<V>, f: spec_fn(V) -> int) -> int
    decreases s.len(),
{
    if s.len() == 0 {
        0
    } else {
        sum_by(s.drop_last(), f) + f(s.last())
    }
}

/// Replacing the element at `i` moves the sum by the measures' difference.
pub proof fn lemma_sum_by_update<V>(s: Seq<V>, i: int, x: V, f: spec_fn(V) -> int)
    requires
        0 <= i < s.len(),
    ensures
        sum_by(s.update(i, x), f) == sum_by(s, f) - f(s[i]) + f(x),
    decreases s.len(),
{
    if i == s.len() - 1 {
        assert(s.update(i, x).drop_last() =~= s.drop_last());
    } else {
        lemma_sum_by_update(s.drop_last(), i, x, f);
        assert(s.update(i, x).drop_last() =~= s.drop_last().update(i, x));
        assert(s.update(i, x).last() == s.last());
    }
}

/// Removing the element at `i` lowers the sum by its measure.
pub proof fn lemma_sum_by_remove<V>(s: Seq<V>, i: int, f: spec_fn(V) -> int)
    requires
        0 <= i < s.len(),
    ensures
        sum_by(s.remove(i), f) == sum_by(s, f) - f(s[i]),
    decreases s.len(),
{
    if i == s.len() - 1 {
        assert(s.remove(i) =~= s.drop_last());
    } else {
        lemma_sum_by_remove(s.drop_last(), i, f);
        assert(s.remove(i).drop_last() =~= s.drop_last().remove(i));
        assert(s.remove(i).last() == s.last());
    }
}

} // verus!
