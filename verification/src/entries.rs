//! Lists of key-value pairs as maps.

use vstd::prelude::*;

verus! {

/// No key occurs twice.
pub open spec fn distinct_keys<K, V>(list: Seq<(K, V)>) -> bool {
    forall|i: int, j: int| 0 <= i < j < list.len() ==> (#[trigger] list[i]).0 != (
    #[trigger] list[j]).0
}

/// The map that a list of pairs stands for.
pub open spec fn entries_map<K, V>(list: Seq<(K, V)>) -> Map<K, V>
    decreases list.len(),
{
    if list.len() == 0 {
        Map::empty()
    } else {
        entries_map(list.drop_last()).insert(list.last().0, list.last().1)
    }
}

/// A key of the list.
pub open spec fn has_key<K, V>(list: Seq<(K, V)>, key: K) -> bool {
    exists|i: int| 0 <= i < list.len() && (#[trigger] list[i]).0 == key
}

/// The map of a list with distinct keys holds exactly its pairs.
pub proof fn lemma_entries_map<K, V>(list: Seq<(K, V)>)
    requires
        distinct_keys(list),
    ensures
        forall|key: K| #[trigger] entries_map(list).contains_key(key) <==> has_key(list, key),
        forall|i: int|
            0 <= i < list.len() ==> entries_map(list).contains_key((#[trigger] list[i]).0)
                && entries_map(list)[list[i].0] == list[i].1,
    decreases list.len(),
{
    if list.len() > 0 {
        let rest = list.drop_last();
        let last = list.last();
        assert forall|i: int, j: int| 0 <= i < j < rest.len() implies (#[trigger] rest[i]).0 != (
        #[trigger] rest[j]).0 by {
            assert(list[i].0 != list[j].0);
        }
        lemma_entries_map(rest);
        assert forall|key: K| #[trigger] entries_map(list).contains_key(key) <==> has_key(
            list,
            key,
        ) by {
            assert(entries_map(list).contains_key(key) <==> entries_map(rest).contains_key(key)
                || key == last.0);
            if has_key(rest, key) {
                let i = choose|i: int| 0 <= i < rest.len() && (#[trigger] rest[i]).0 == key;
                assert(list[i].0 == key);
            }
            if key == last.0 {
                assert(list[list.len() - 1].0 == key);
            }
            if has_key(list, key) {
                let i = choose|i: int| 0 <= i < list.len() && (#[trigger] list[i]).0 == key;
                if i < rest.len() {
                    assert(rest[i].0 == key);
                }
            }
        }
        assert forall|i: int| 0 <= i < list.len() implies entries_map(list).contains_key(
            (#[trigger] list[i]).0,
        ) && entries_map(list)[list[i].0] == list[i].1 by {
            if i < rest.len() {
                assert(rest[i] == list[i]);
                assert(list[i].0 != list[list.len() - 1].0);
            }
        }
    }
}

/// Replacing the value of one pair inserts it into the map.
pub proof fn lemma_entries_update<K, V>(list: Seq<(K, V)>, i: int, value: V)
    requires
        distinct_keys(list),
        0 <= i < list.len(),
    ensures
        distinct_keys(list.update(i, (list[i].0, value))),
        entries_map(list.update(i, (list[i].0, value))) == entries_map(list).insert(
            list[i].0,
            value,
        ),
{
    let key = list[i].0;
    let after = list.update(i, (key, value));
    assert forall|a: int, b: int| 0 <= a < b < after.len() implies (#[trigger] after[a]).0 != (
    #[trigger] after[b]).0 by {
        assert(after[a].0 == list[a].0 && after[b].0 == list[b].0);
    }
    lemma_entries_map(list);
    lemma_entries_map(after);
    let left = entries_map(after);
    let right = entries_map(list).insert(key, value);
    assert forall|k: K| #[trigger] left.contains_key(k) == right.contains_key(k) by {
        if has_key(after, k) {
            let a = choose|a: int| 0 <= a < after.len() && (#[trigger] after[a]).0 == k;
            assert(list[a].0 == k);
        }
        if has_key(list, k) {
            let a = choose|a: int| 0 <= a < list.len() && (#[trigger] list[a]).0 == k;
            assert(after[a].0 == k);
        }
        if k == key {
            assert(after[i].0 == k);
        }
    }
    assert forall|k: K| #[trigger] left.contains_key(k) implies left[k] == right[k] by {
        let a = choose|a: int| 0 <= a < after.len() && (#[trigger] after[a]).0 == k;
        if a == i {
            assert(after[i].1 == value);
        } else {
            assert(list[a] == after[a]);
            if a < i {
                assert(list[a].0 != list[i].0);
            } else {
                assert(list[i].0 != list[a].0);
            }
        }
    }
    assert(left =~= right);
}

/// Adding a pair with a new key inserts it into the map, wherever it is placed.
pub proof fn lemma_entries_insert<K, V>(list: Seq<(K, V)>, i: int, key: K, value: V)
    requires
        distinct_keys(list),
        0 <= i <= list.len(),
        !has_key(list, key),
    ensures
        distinct_keys(list.insert(i, (key, value))),
        entries_map(list.insert(i, (key, value))) == entries_map(list).insert(key, value),
{
    let after = list.insert(i, (key, value));
    assert forall|a: int| 0 <= a < after.len() implies #[trigger] after[a] == (if a < i {
        list[a]
    } else if a == i {
        (key, value)
    } else {
        list[a - 1]
    }) by {}
    assert forall|a: int, b: int| 0 <= a < b < after.len() implies (#[trigger] after[a]).0 != (
    #[trigger] after[b]).0 by {
        if b == i {
            assert(list[a].0 != key);
        } else if a == i {
            assert(list[b - 1].0 != key);
        } else {
            let x = if a < i {
                a
            } else {
                a - 1
            };
            let y = if b < i {
                b
            } else {
                b - 1
            };
            assert(list[x].0 != list[y].0);
        }
    }
    lemma_entries_map(list);
    lemma_entries_map(after);
    let left = entries_map(after);
    let right = entries_map(list).insert(key, value);
    assert forall|k: K| #[trigger] left.contains_key(k) == right.contains_key(k) by {
        if has_key(after, k) {
            let a = choose|a: int| 0 <= a < after.len() && (#[trigger] after[a]).0 == k;
            if a < i {
                assert(list[a].0 == k);
            } else if a > i {
                assert(list[a - 1].0 == k);
            }
        }
        if has_key(list, k) {
            let a = choose|a: int| 0 <= a < list.len() && (#[trigger] list[a]).0 == k;
            if a < i {
                assert(after[a].0 == k);
            } else {
                assert(after[a + 1].0 == k);
            }
        }
        if k == key {
            assert(after[i].0 == k);
        }
    }
    assert forall|k: K| #[trigger] left.contains_key(k) implies left[k] == right[k] by {
        let a = choose|a: int| 0 <= a < after.len() && (#[trigger] after[a]).0 == k;
        if a < i {
            assert(list[a].0 == k && list[a].0 != key);
        } else if a > i {
            assert(list[a - 1].0 == k && list[a - 1].0 != key);
        }
    }
    assert(left =~= right);
}

/// The map has as many keys as the list.
pub proof fn lemma_entries_len<K, V>(list: Seq<(K, V)>)
    requires
        distinct_keys(list),
    ensures
        entries_map(list).dom().finite(),
        entries_map(list).len() == list.len(),
    decreases list.len(),
{
    if list.len() > 0 {
        let rest = list.drop_last();
        assert forall|i: int, j: int| 0 <= i < j < rest.len() implies (#[trigger] rest[i]).0 != (
        #[trigger] rest[j]).0 by {
            assert(list[i].0 != list[j].0);
        }
        lemma_entries_len(rest);
        lemma_entries_map(rest);
        assert(!has_key(rest, list.last().0)) by {
            if has_key(rest, list.last().0) {
                let i = choose|i: int|
                    0 <= i < rest.len() && (#[trigger] rest[i]).0 == list.last().0;
                assert(list[i].0 != list[list.len() - 1].0);
            }
        }
    } else {
        assert(entries_map(list).dom() =~= Set::empty());
    }
}

/// Removing a pair removes its key from the map.
pub proof fn lemma_entries_remove<K, V>(list: Seq<(K, V)>, i: int)
    requires
        distinct_keys(list),
        0 <= i < list.len(),
    ensures
        distinct_keys(list.remove(i)),
        entries_map(list.remove(i)) == entries_map(list).remove(list[i].0),
{
    let key = list[i].0;
    let after = list.remove(i);
    assert forall|a: int| 0 <= a < after.len() implies #[trigger] after[a] == (if a < i {
        list[a]
    } else {
        list[a + 1]
    }) by {}
    assert forall|a: int, b: int| 0 <= a < b < after.len() implies (#[trigger] after[a]).0 != (
    #[trigger] after[b]).0 by {
        let x = if a < i {
            a
        } else {
            a + 1
        };
        let y = if b < i {
            b
        } else {
            b + 1
        };
        assert(list[x].0 != list[y].0);
    }
    lemma_entries_map(list);
    lemma_entries_map(after);
    let left = entries_map(after);
    let right = entries_map(list).remove(key);
    assert forall|k: K| #[trigger] left.contains_key(k) == right.contains_key(k) by {
        if has_key(after, k) {
            let a = choose|a: int| 0 <= a < after.len() && (#[trigger] after[a]).0 == k;
            let x = if a < i {
                a
            } else {
                a + 1
            };
            assert(list[x].0 == k);
            if x < i {
                assert(list[x].0 != list[i].0);
            } else {
                assert(list[i].0 != list[x].0);
            }
        }
        if has_key(list, k) && k != key {
            let a = choose|a: int| 0 <= a < list.len() && (#[trigger] list[a]).0 == k;
            if a < i {
                assert(after[a].0 == k);
            } else {
                assert(after[a - 1].0 == k);
            }
        }
    }
    assert forall|k: K| #[trigger] left.contains_key(k) implies left[k] == right[k] by {
        let a = choose|a: int| 0 <= a < after.len() && (#[trigger] after[a]).0 == k;
        if a < i {
            assert(list[a].0 == k);
        } else {
            assert(list[a + 1].0 == k);
        }
    }
    assert(left =~= right);
}

} // verus!
