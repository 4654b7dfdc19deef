//! Association lists keyed by operation name: a vector of `(name, value)`
//! pairs whose names are pairwise distinct, viewed as a map from names to
//! values.

use vstd::prelude::*;

use crate::text::str_eq;

verus! {

/// No name occurs twice.
pub open spec fn keys_distinct<V>(s: Seq<(String, V)>) -> bool {
    forall|i: int, j: int| 0 <= i < s.len() && 0 <= j < s.len() && i != j ==> s[i].0@ != s[j].0@
}

/// Some entry carries the name `k`.
pub open spec fn has_key<V>(s: Seq<(String, V)>, k: Seq<char>) -> bool {
    exists|i: int| 0 <= i < s.len() && s[i].0@ == k
}

/// The map from each name to the value stored with it.
pub open spec fn assoc_map<V>(s: Seq<(String, V)>) -> Map<Seq<char>, V> {
    Map::new(
        |k: Seq<char>| has_key(s, k),
        |k: Seq<char>| s[choose|i: int| 0 <= i < s.len() && s[i].0@ == k].1,
    )
}

/// With distinct names, the map gives each entry's value under its name.
pub proof fn lemma_assoc_map_at<V>(s: Seq<(String, V)>, i: int)
    requires
        keys_distinct(s),
        0 <= i < s.len(),
    ensures
        assoc_map(s).contains_key(s[i].0@),
        assoc_map(s)[s[i].0@] == s[i].1,
{
    let k = s[i].0@;
    assert(has_key(s, k));
    let j = choose|j: int| 0 <= j < s.len() && s[j].0@ == k;
    assert(j == i);
}

/// Replacing the value of entry `i` replaces the value under its name.
pub proof fn lemma_assoc_map_update<V>(s: Seq<(String, V)>, i: int, e: (String, V))
    requires
        keys_distinct(s),
        0 <= i < s.len(),
        e.0@ == s[i].0@,
    ensures
        keys_distinct(s.update(i, e)),
        assoc_map(s.update(i, e)) =~= assoc_map(s).insert(e.0@, e.1),
{
    let t = s.update(i, e);
    assert(keys_distinct(t)) by {
        assert forall|a: int, b: int|
            0 <= a < t.len() && 0 <= b < t.len() && a != b implies t[a].0@ != t[b].0@ by {
            assert(t[a].0@ == s[a].0@);
            assert(t[b].0@ == s[b].0@);
        }
    }
    assert forall|k: Seq<char>| #[trigger] has_key(t, k) == has_key(s, k) by {
        if has_key(s, k) {
            let j = choose|j: int| 0 <= j < s.len() && s[j].0@ == k;
            assert(t[j].0@ == k);
        }
        if has_key(t, k) {
            let j = choose|j: int| 0 <= j < t.len() && t[j].0@ == k;
            assert(s[j].0@ == k);
        }
    }
    assert forall|k: Seq<char>| #[trigger] assoc_map(t).contains_key(k) implies assoc_map(t)[k]
        == assoc_map(s).insert(e.0@, e.1)[k] by {
        let j = choose|j: int| 0 <= j < t.len() && t[j].0@ == k;
        lemma_assoc_map_at(t, j);
        if j != i {
            lemma_assoc_map_at(s, j);
        }
    }
}

/// Appending an entry with a new name adds that name.
pub proof fn lemma_assoc_map_push<V>(s: Seq<(String, V)>, e: (String, V))
    requires
        keys_distinct(s),
        !has_key(s, e.0@),
    ensures
        keys_distinct(s.push(e)),
        assoc_map(s.push(e)) =~= assoc_map(s).insert(e.0@, e.1),
{
    let t = s.push(e);
    assert(keys_distinct(t)) by {
        assert forall|a: int, b: int|
            0 <= a < t.len() && 0 <= b < t.len() && a != b implies t[a].0@ != t[b].0@ by {
            if a < s.len() && b < s.len() {
                assert(t[a] == s[a] && t[b] == s[b]);
            } else if a < s.len() {
                assert(t[a] == s[a]);
            } else {
                assert(t[b] == s[b]);
            }
        }
    }
    assert forall|k: Seq<char>| #[trigger] has_key(t, k) == (has_key(s, k) || k == e.0@) by {
        if has_key(s, k) {
            let j = choose|j: int| 0 <= j < s.len() && s[j].0@ == k;
            assert(t[j].0@ == k);
        }
        if k == e.0@ {
            assert(t[s.len() as int].0@ == k);
        }
        if has_key(t, k) {
            let j = choose|j: int| 0 <= j < t.len() && t[j].0@ == k;
            if j < s.len() {
                assert(s[j].0@ == k);
            }
        }
    }
    assert forall|k: Seq<char>| #[trigger] assoc_map(t).contains_key(k) implies assoc_map(t)[k]
        == assoc_map(s).insert(e.0@, e.1)[k] by {
        let j = choose|j: int| 0 <= j < t.len() && t[j].0@ == k;
        lemma_assoc_map_at(t, j);
        if j < s.len() {
            assert(t[j] == s[j]);
            lemma_assoc_map_at(s, j);
        }
    }
}

/// Removing entry `i` removes its name.
pub proof fn lemma_assoc_map_remove<V>(s: Seq<(String, V)>, i: int)
    requires
        keys_distinct(s),
        0 <= i < s.len(),
    ensures
        keys_distinct(s.remove(i)),
        assoc_map(s.remove(i)) =~= assoc_map(s).remove(s[i].0@),
{
    let t = s.remove(i);
    assert forall|a: int| 0 <= a < t.len() implies #[trigger] t[a] == s[if a < i { a } else { a + 1 }] by {}
    assert(keys_distinct(t)) by {
        assert forall|a: int, b: int|
            0 <= a < t.len() && 0 <= b < t.len() && a != b implies t[a].0@ != t[b].0@ by {
            assert(t[a] == s[if a < i { a } else { a + 1 }]);
            assert(t[b] == s[if b < i { b } else { b + 1 }]);
        }
    }
    assert forall|k: Seq<char>| #[trigger] has_key(t, k) == (has_key(s, k) && k != s[i].0@) by {
        if has_key(s, k) && k != s[i].0@ {
            let j = choose|j: int| 0 <= j < s.len() && s[j].0@ == k;
            assert(j != i);
            let a = if j < i { j } else { j - 1 };
            assert(t[a] == s[j]);
        }
        if has_key(t, k) {
            let a = choose|a: int| 0 <= a < t.len() && t[a].0@ == k;
            let j = if a < i { a } else { a + 1 };
            assert(t[a] == s[j]);
            assert(j != i);
        }
    }
    assert forall|k: Seq<char>| #[trigger] assoc_map(t).contains_key(k) implies assoc_map(t)[k]
        == assoc_map(s).remove(s[i].0@)[k] by {
        let a = choose|a: int| 0 <= a < t.len() && t[a].0@ == k;
        let j = if a < i { a } else { a + 1 };
        assert(t[a] == s[j]);
        lemma_assoc_map_at(t, a);
        lemma_assoc_map_at(s, j);
    }
}

/// The empty list is the empty map.
pub proof fn lemma_assoc_map_empty<V>(s: Seq<(String, V)>)
    requires
        s.len() == 0,
    ensures
        keys_distinct(s),
        assoc_map(s) =~= Map::<Seq<char>, V>::empty(),
{
}

/// The position of the entry named `k`, if any.
pub fn find_key<V>(s: &Vec<(String, V)>, k: &str) -> (r: Option<usize>)
    ensures
        r matches Some(i) ==> i < s.len() && s@[i as int].0@ == k@,
        r is None ==> !has_key(s@, k@),
{
    let mut i: usize = 0;
    while i < s.len()
        invariant
            i <= s.len(),
            forall|j: int| 0 <= j < i ==> s@[j].0@ != k@,
        decreases s.len() - i,
    {
        if str_eq(s[i].0.as_str(), k) {
            return Some(i);
        }
        i = i + 1;
    }
    None
}

/// The values paired with the name `k`, in the order they occur.
pub open spec fn values_under<V>(items: Seq<(String, V)>, k: Seq<char>) -> Seq<V>
    decreases items.len(),
{
    if items.len() == 0 {
        Seq::empty()
    } else {
        let rest = values_under(items.drop_last(), k);
        if items.last().0@ == k {
            rest.push(items.last().1)
        } else {
            rest
        }
    }
}

proof fn lemma_values_under_absent<V>(items: Seq<(String, V)>, k: Seq<char>)
    requires
        !has_key(items, k),
    ensures
        values_under(items, k) == Seq::<V>::empty(),
    decreases items.len(),
{
    if items.len() > 0 {
        assert(!has_key(items.drop_last(), k)) by {
            if has_key(items.drop_last(), k) {
                let q = choose|q: int| 0 <= q < items.drop_last().len() && items.drop_last()[q].0@ == k;
                assert(items[q] == items.drop_last()[q]);
            }
        }
        lemma_values_under_absent(items.drop_last(), k);
        assert(items.last() == items[items.len() - 1]);
    }
}

/// Gathers the values of `(name, value)` pairs by name: one entry per name,
/// holding that name's values in the order they occur.
pub fn group_by_key<V: Copy>(items: &[(String, V)]) -> (r: Vec<(String, Vec<V>)>)
    ensures
        keys_distinct(r@),
        forall|k: Seq<char>| has_key(r@, k) <==> has_key(items@, k),
        forall|j: int| 0 <= j < r@.len() ==> (#[trigger] r@[j]).1@ == values_under(items@, r@[j].0@),
{
    let mut groups: Vec<(String, Vec<V>)> = Vec::new();
    let mut i: usize = 0;
    while i < items.len()
        invariant
            i <= items@.len(),
            keys_distinct(groups@),
            forall|k: Seq<char>| has_key(groups@, k) <==> has_key(items@.subrange(0, i as int), k),
            forall|j: int|
                0 <= j < groups@.len() ==> (#[trigger] groups@[j]).1@ == values_under(
                    items@.subrange(0, i as int),
                    groups@[j].0@,
                ),
        decreases items@.len() - i,
    {
        let ghost before = groups@;
        let ghost prefix = items@.subrange(0, i as int);
        let ghost next = items@.subrange(0, i + 1);
        proof {
            assert(next.drop_last() =~= prefix);
            assert(next.last() == items@[i as int]);
        }
        let key = items[i].0.as_str();
        let value = items[i].1;
        match find_key(&groups, key) {
            Some(j) => {
                let mut entry: (String, Vec<V>) = (String::new(), Vec::new());
                groups.set_and_swap(j, &mut entry);
                entry.1.push(value);
                let ghost e = entry;
                proof {
                    assert(e.0@ == before[j as int].0@);
                    lemma_assoc_map_update(before, j as int, e);
                }
                groups.set(j, entry);
                proof {
                    assert(groups@ == before.update(j as int, e));
                    lemma_assoc_map_at(before, j as int);
                    assert(has_key(before, key@));
                }
            },
            None => {
                let mut list: Vec<V> = Vec::new();
                list.push(value);
                let entry = (crate::text::owned(key), list);
                proof {
                    lemma_assoc_map_push(before, entry);
                    assert(!has_key(prefix, key@));
                    lemma_values_under_absent(prefix, key@);
                    assert(entry.1@ =~= values_under(prefix, key@).push(value));
                }
                groups.push(entry);
            },
        }
        proof {
            let after = groups@;
            assert(assoc_map(after).dom() =~= assoc_map(before).dom().insert(key@));
            assert forall|k: Seq<char>| has_key(after, k) <==> has_key(next, k) by {
                assert(assoc_map(after).dom().contains(k) == has_key(after, k));
                assert(assoc_map(before).dom().contains(k) == has_key(before, k));
                if has_key(next, k) {
                    let q = choose|q: int| 0 <= q < next.len() && next[q].0@ == k;
                    if q < i {
                        assert(prefix[q] == next[q]);
                        assert(has_key(prefix, k));
                        assert(has_key(before, k));
                        let p = choose|p: int| 0 <= p < before.len() && before[p].0@ == k;
                        assert(after[p].0@ == k);
                    } else {
                        assert(k == key@);
                    }
                }
                if has_key(after, k) {
                    let p = choose|p: int| 0 <= p < after.len() && after[p].0@ == k;
                    if p < before.len() {
                        assert(after[p].0@ == before[p].0@);
                        assert(has_key(before, k));
                        let q = choose|q: int| 0 <= q < prefix.len() && prefix[q].0@ == k;
                        assert(next[q] == prefix[q]);
                    } else {
                        assert(k == key@);
                        assert(next[i as int].0@ == k);
                    }
                }
            }
            assert forall|j: int| 0 <= j < after.len() implies (#[trigger] after[j]).1@ == values_under(
                next,
                after[j].0@,
            ) by {
                if j < before.len() && after[j].0@ != key@ {
                    assert(after[j] == before[j]);
                }
            }
        }
        i = i + 1;
    }
    proof {
        assert(items@.subrange(0, i as int) =~= items@);
    }
    groups
}

} // verus!
