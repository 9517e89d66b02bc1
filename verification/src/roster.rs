//! Passes over the keys of a table in ascending order.

use crate::keys::TableKey;
use crate::table::{lemma_ascending_distinct, lists_ascending};
use vstd::prelude::*;

verus! {

/// The keys that a pass over `keys` has visited after `n` steps.
pub open spec fn visited<K: TableKey>(keys: Seq<K>, n: int) -> Set<K> {
    Set::new(|k: K| exists|j: int| 0 <= j < n && j < keys.len() && keys[j] == k)
}

/// A pass visits nothing before its first step, one more key with every
/// step, and all of the listed set in the end.
pub proof fn lemma_visited<K: TableKey>(keys: Seq<K>, set: Set<K>, n: int)
    requires
        lists_ascending(keys, set),
        0 <= n <= keys.len(),
    ensures
        visited(keys, 0) == Set::<K>::empty(),
        n < keys.len() ==> visited(keys, n + 1) == visited(keys, n).insert(keys[n]),
        n < keys.len() ==> !visited(keys, n).contains(keys[n]),
        n < keys.len() ==> set.contains(keys[n]),
        visited(keys, keys.len() as int) == set,
{
    assert(visited(keys, 0) =~= Set::<K>::empty());
    if n < keys.len() {
        assert(visited(keys, n + 1) =~= visited(keys, n).insert(keys[n]));
        if visited(keys, n).contains(keys[n]) {
            let j = choose|j: int| 0 <= j < n && j < keys.len() && keys[j] == keys[n];
            lemma_ascending_distinct(keys, j, n);
        }
        assert(keys.contains(keys[n]));
    }
    assert forall|k: K| visited(keys, keys.len() as int).contains(k) <==> set.contains(k) by {
        if visited(keys, keys.len() as int).contains(k) {
            let j = choose|j: int| 0 <= j < keys.len() && j < keys.len() && keys[j] == k;
            assert(keys.contains(k));
        }
        if set.contains(k) {
            assert(keys.contains(k));
            let j = keys.index_of(k);
            assert(0 <= j < keys.len() && keys[j] == k);
        }
    }
    assert(visited(keys, keys.len() as int) =~= set);
}

} // verus!
