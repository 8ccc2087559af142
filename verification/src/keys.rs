//! Sequences of keys and of records: where a key is found first, what keeps
//! keys free of duplicates, and how a filter goes through a sequence.

use vstd::prelude::*;

verus! {

/// Whether `i` is the first place at which `k` occurs among `keys`.
pub open spec fn first_at<K>(keys: Seq<K>, k: K, i: int) -> bool {
    &&& 0 <= i < keys.len()
    &&& keys[i] == k
    &&& forall|j: int| 0 <= j < i ==> keys[j] != k
}

/// The first place at which `k` occurs among `keys`, if it occurs at all.
pub open spec fn find<K>(keys: Seq<K>, k: K) -> Option<int> {
    if keys.contains(k) {
        Some(choose|i: int| first_at(keys, k, i))
    } else {
        None
    }
}

/// A key that occurs has a first place, and the search finds that place.
pub proof fn lemma_find<K>(keys: Seq<K>, k: K)
    ensures
        match find(keys, k) {
            Some(i) => first_at(keys, k, i) && keys.contains(k),
            None => !keys.contains(k) && forall|j: int| 0 <= j < keys.len() ==> keys[j] != k,
        },
{
    keys.index_of_first_ensures(k);
    if keys.contains(k) {
        assert(first_at(keys, k, keys.index_of_first(k)->0));
    }
}

/// The search finds the place before which the key does not occur.
pub proof fn lemma_first_at<K>(keys: Seq<K>, k: K, i: int)
    requires
        first_at(keys, k, i),
    ensures
        find(keys, k) == Some(i),
{
    assert(keys.contains(k));
    lemma_find(keys, k);
}

/// A key that occurs nowhere is not found.
pub proof fn lemma_not_found<K>(keys: Seq<K>, k: K)
    requires
        forall|j: int| 0 <= j < keys.len() ==> keys[j] != k,
    ensures
        find(keys, k) is None,
        !keys.contains(k),
{
}

/// Adding a key that does not occur keeps the keys free of duplicates, and
/// the new key is found at the end.
pub proof fn lemma_push_key<K>(keys: Seq<K>, k: K)
    requires
        keys.no_duplicates(),
        !keys.contains(k),
    ensures
        keys.push(k).no_duplicates(),
        find(keys.push(k), k) == Some(keys.len() as int),
{
    let grown = keys.push(k);
    assert forall|j: int| 0 <= j < keys.len() implies grown[j] != k by {
        assert(keys.contains(keys[j]));
    }
    lemma_first_at(grown, k, keys.len() as int);
}

/// Removing one key keeps the keys free of duplicates, and the removed key
/// is no longer found.
pub proof fn lemma_remove_key<K>(keys: Seq<K>, i: int)
    requires
        keys.no_duplicates(),
        0 <= i < keys.len(),
    ensures
        keys.remove(i).no_duplicates(),
        !keys.remove(i).contains(keys[i]),
{
    let rest = keys.remove(i);
    assert forall|a: int| 0 <= a < rest.len() implies rest[a] != keys[i] by {
        assert(rest[a] == keys[if a < i { a } else { a + 1 }]);
    }
}

/// Filtering one more element: the element is appended if it is kept, and
/// nothing changes if it is not.
pub proof fn lemma_filter_next<A>(s: Seq<A>, keep: spec_fn(A) -> bool, i: int)
    requires
        0 <= i < s.len(),
    ensures
        s.take(i + 1).filter(keep) == if keep(s[i]) {
            s.take(i).filter(keep).push(s[i])
        } else {
            s.take(i).filter(keep)
        },
{
    reveal(Seq::filter);
    assert(s.take(i + 1).drop_last() =~= s.take(i));
}

/// What a filter keeps: no more than there is, only what passes the test
/// and was there before, and all of that.
pub proof fn lemma_filter_facts<A>(s: Seq<A>, keep: spec_fn(A) -> bool)
    ensures
        s.filter(keep).len() <= s.len(),
        forall|i: int|
            0 <= i < s.filter(keep).len() ==> keep(#[trigger] s.filter(keep)[i]) && s.contains(
                s.filter(keep)[i],
            ),
        forall|i: int| 0 <= i < s.len() && keep(#[trigger] s[i]) ==> s.filter(keep).contains(s[i]),
    decreases s.len(),
{
    assert forall|i: int| 0 <= i < s.len() && keep(#[trigger] s[i]) implies s.filter(
        keep,
    ).contains(s[i]) by {
        s.lemma_filter_contains(keep, i);
    }
    reveal(Seq::filter);
    if s.len() > 0 {
        let front = s.drop_last();
        let kept = front.filter(keep);
        lemma_filter_facts(front, keep);
        assert forall|i: int| 0 <= i < kept.len() implies s.contains(#[trigger] kept[i]) by {
            let j = choose|j: int| 0 <= j < front.len() && front[j] == kept[i];
            assert(s[j] == kept[i]);
        }
        assert(s[s.len() - 1] == s.last());
    }
}

/// Filtering twice is filtering once by both tests.
pub proof fn lemma_filter_twice<A>(
    s: Seq<A>,
    first: spec_fn(A) -> bool,
    second: spec_fn(A) -> bool,
    both: spec_fn(A) -> bool,
)
    requires
        forall|a: A| #[trigger] both(a) == (first(a) && second(a)),
    ensures
        s.filter(first).filter(second) == s.filter(both),
    decreases s.len(),
{
    reveal(Seq::filter);
    if s.len() > 0 {
        let front = s.drop_last();
        lemma_filter_twice(front, first, second, both);
        if first(s.last()) {
            let kept = front.filter(first);
            assert(kept.push(s.last()).drop_last() =~= kept);
        }
    }
}

/// Elements that differ by key before a filter differ by key after it.
pub proof fn lemma_filter_keys<A, K>(s: Seq<A>, key: spec_fn(A) -> K, keep: spec_fn(A) -> bool)
    requires
        forall|i: int, j: int| 0 <= i < j < s.len() ==> key(s[i]) != key(s[j]),
    ensures
        forall|i: int, j: int|
            0 <= i < j < s.filter(keep).len() ==> key(s.filter(keep)[i]) != key(s.filter(keep)[j]),
    decreases s.len(),
{
    reveal(Seq::filter);
    if s.len() > 0 {
        let front = s.drop_last();
        let kept = front.filter(keep);
        lemma_filter_keys(front, key, keep);
        lemma_filter_facts(front, keep);
        assert forall|i: int| 0 <= i < kept.len() implies key(#[trigger] kept[i]) != key(
            s.last(),
        ) by {
            let j = choose|j: int| 0 <= j < front.len() && front[j] == kept[i];
            assert(s[j] == kept[i]);
        }
    }
}

/// The map that a store stands for: each key that occurs is mapped to the
/// record at the first place at which the key occurs.
pub open spec fn as_map<K, V>(keys: Seq<K>, records: Seq<V>) -> Map<K, V> {
    Map::new(|k: K| keys.contains(k), |k: K| records[find(keys, k)->0])
}

/// Storing a record under a key that does not occur yet adds one entry to
/// the map of the store.
pub proof fn lemma_map_push<K, V>(keys: Seq<K>, records: Seq<V>, k: K, v: V)
    requires
        keys.len() == records.len(),
        !keys.contains(k),
    ensures
        as_map(keys.push(k), records.push(v)) == as_map(keys, records).insert(k, v),
{
    let grown = keys.push(k);
    let before = as_map(keys, records);
    let after = as_map(grown, records.push(v));
    assert forall|q: K| after.contains_key(q) == before.insert(k, v).contains_key(q) by {
        if keys.contains(q) {
            let j = choose|j: int| 0 <= j < keys.len() && keys[j] == q;
            assert(grown[j] == q);
        }
        if q == k {
            assert(grown[keys.len() as int] == k);
        }
    }
    assert forall|q: K| after.contains_key(q) implies after[q] == before.insert(k, v)[q] by {
        lemma_find(grown, q);
        lemma_find(keys, q);
        let i = find(grown, q)->0;
        if q == k {
            assert(i == keys.len());
        } else {
            assert(grown[i] == keys[i]);
            assert forall|j: int| 0 <= j < i implies keys[j] != q by {
                assert(grown[j] == keys[j]);
            }
            lemma_first_at(keys, q, i);
        }
    }
    assert(after =~= before.insert(k, v));
}

/// Replacing the record at one place, under keys that occur once each,
/// replaces one entry of the map of the store.
pub proof fn lemma_map_update<K, V>(keys: Seq<K>, records: Seq<V>, i: int, v: V)
    requires
        keys.len() == records.len(),
        keys.no_duplicates(),
        0 <= i < keys.len(),
    ensures
        as_map(keys, records.update(i, v)) == as_map(keys, records).insert(keys[i], v),
{
    let before = as_map(keys, records);
    let after = as_map(keys, records.update(i, v));
    assert forall|q: K| after.contains_key(q) implies after[q] == before.insert(keys[i], v)[q] by {
        lemma_find(keys, q);
    }
    assert(after =~= before.insert(keys[i], v));
}

/// Removing the record at one place, under keys that occur once each,
/// removes one entry of the map of the store.
pub proof fn lemma_map_remove<K, V>(keys: Seq<K>, records: Seq<V>, i: int)
    requires
        keys.len() == records.len(),
        keys.no_duplicates(),
        0 <= i < keys.len(),
    ensures
        as_map(keys.remove(i), records.remove(i)) == as_map(keys, records).remove(keys[i]),
{
    let rest = keys.remove(i);
    let before = as_map(keys, records);
    let after = as_map(rest, records.remove(i));
    lemma_remove_key(keys, i);
    assert forall|q: K| after.contains_key(q) == before.remove(keys[i]).contains_key(q) by {
        if rest.contains(q) {
            let j = choose|j: int| 0 <= j < rest.len() && rest[j] == q;
            assert(keys[if j < i { j } else { j + 1 }] == q);
        }
        if keys.contains(q) && q != keys[i] {
            let j = choose|j: int| 0 <= j < keys.len() && keys[j] == q;
            assert(rest[if j < i { j } else { j - 1 }] == q);
        }
    }
    assert forall|q: K| after.contains_key(q) implies after[q] == before.remove(keys[i])[q] by {
        lemma_find(rest, q);
        lemma_find(keys, q);
        let a = find(rest, q)->0;
        let b = if a < i { a } else { a + 1 };
        assert(keys[b] == q);
        assert(find(keys, q)->0 == b);
    }
    assert(after =~= before.remove(keys[i]));
}

} // verus!
