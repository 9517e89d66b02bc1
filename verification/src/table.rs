//! An ordered table: keys in strictly ascending order, one value per key.
//!
//! The table stands where the chain state keeps one record per key and scans
//! them in key order. Its mathematical model is a `Map` from keys to values
//! together with the ascending sequence of its keys.

use crate::keys::TableKey;
use vstd::prelude::*;

verus! {

/// Every earlier key of the sequence comes before every later one.
pub open spec fn ascending<K: TableKey>(keys: Seq<K>) -> bool {
    forall|i: int, j: int|
        #![trigger keys[i], keys[j]]
        0 <= i < j < keys.len() ==> keys[i].before(keys[j])
}

/// The keys of an ascending sequence are pairwise different.
pub proof fn lemma_ascending_distinct<K: TableKey>(keys: Seq<K>, i: int, j: int)
    requires
        ascending(keys),
        0 <= i < keys.len(),
        0 <= j < keys.len(),
        keys[i] == keys[j],
    ensures
        i == j,
{
    K::lemma_strict_total_order(keys[i], keys[j], keys[i]);
    if i < j {
        assert(keys[i].before(keys[j]));
    } else if j < i {
        assert(keys[j].before(keys[i]));
    }
}

/// The sequence lists the keys of the set, each once, in ascending order.
pub open spec fn lists_ascending<K: TableKey>(keys: Seq<K>, set: Set<K>) -> bool {
    &&& ascending(keys)
    &&& forall|k: K| #[trigger] keys.contains(k) <==> set.contains(k)
}

/// The keys of a set in ascending order.
pub open spec fn ascending_listing<K: TableKey>(set: Set<K>) -> Seq<K> {
    choose|keys: Seq<K>| lists_ascending(keys, set)
}

/// A set has at most one ascending listing.
pub proof fn lemma_listing_unique<K: TableKey>(a: Seq<K>, b: Seq<K>, set: Set<K>)
    requires
        lists_ascending(a, set),
        lists_ascending(b, set),
    ensures
        a == b,
    decreases a.len(),
{
    if a.len() == 0 {
        if b.len() > 0 {
            assert(b.contains(b[0]));
            assert(a.contains(b[0]));
        }
        assert(a =~= b);
    } else {
        assert(a.contains(a[0]));
        assert(b.contains(a[0]));
        let j = b.index_of(a[0]);
        assert(b.contains(b[0]));
        assert(a.contains(b[0]));
        let i = a.index_of(b[0]);
        K::lemma_strict_total_order(a[0], b[0], a[0]);
        if j > 0 {
            assert(b[0].before(b[j]));
            if i > 0 {
                assert(a[0].before(a[i]));
            }
        }
        assert(a[0] == b[0]);
        let rest = set.remove(a[0]);
        let ta = a.skip(1);
        let tb = b.skip(1);
        assert(ascending(ta)) by {
            assert forall|x: int, y: int| 0 <= x < y < ta.len() implies (#[trigger] ta[x]).before(
                #[trigger] ta[y],
            ) by {
                assert(a[x + 1].before(a[y + 1]));
            }
        }
        assert(ascending(tb)) by {
            assert forall|x: int, y: int| 0 <= x < y < tb.len() implies (#[trigger] tb[x]).before(
                #[trigger] tb[y],
            ) by {
                assert(b[x + 1].before(b[y + 1]));
            }
        }
        assert forall|k: K| #[trigger] ta.contains(k) <==> rest.contains(k) by {
            if ta.contains(k) {
                let x = ta.index_of(k);
                assert(a[x + 1] == k);
                assert(a.contains(k));
                if k == a[0] {
                    lemma_ascending_distinct(a, 0, x + 1);
                }
            }
            if rest.contains(k) {
                assert(a.contains(k));
                let x = a.index_of(k);
                assert(ta[x - 1] == k);
            }
        }
        assert forall|k: K| #[trigger] tb.contains(k) <==> rest.contains(k) by {
            if tb.contains(k) {
                let x = tb.index_of(k);
                assert(b[x + 1] == k);
                assert(b.contains(k));
                if k == b[0] {
                    lemma_ascending_distinct(b, 0, x + 1);
                }
            }
            if rest.contains(k) {
                assert(b.contains(k));
                let x = b.index_of(k);
                assert(tb[x - 1] == k);
            }
        }
        lemma_listing_unique(ta, tb, rest);
        assert(a =~= seq![a[0]] + ta);
        assert(b =~= seq![b[0]] + tb);
    }
}

/// An ascending sequence is the ascending listing of its own keys.
pub proof fn lemma_listing_of_keys<K: TableKey>(keys: Seq<K>, set: Set<K>)
    requires
        lists_ascending(keys, set),
    ensures
        ascending_listing(set) == keys,
        lists_ascending(ascending_listing(set), set),
{
    lemma_listing_unique(ascending_listing(set), keys, set);
}

/// The map that an ascending key sequence and its values stand for.
pub open spec fn entries_map<K: TableKey, V>(keys: Seq<K>, values: Seq<V>) -> Map<K, V> {
    Map::new(|k: K| keys.contains(k), |k: K| values[keys.index_of(k)])
}

/// In an ascending sequence the key at position `i` is found at `i` again.
pub proof fn lemma_entries_map_at<K: TableKey, V>(keys: Seq<K>, values: Seq<V>, i: int)
    requires
        ascending(keys),
        0 <= i < keys.len(),
    ensures
        entries_map(keys, values).dom().contains(keys[i]),
        entries_map(keys, values)[keys[i]] == values[i],
{
    lemma_ascending_distinct(keys, keys.index_of(keys[i]), i);
}

/// A table of values under keys, kept in ascending order of the keys.
pub struct Table<K: TableKey, V> {
    keys: Vec<K>,
    values: Vec<V>,
}

impl<K: TableKey, V> Table<K, V> {
    /// The keys of the table, ascending.
    pub closed spec fn keys(&self) -> Seq<K> {
        self.keys@
    }

    /// The values of the table, each at the position of its key.
    pub closed spec fn values(&self) -> Seq<V> {
        self.values@
    }

    /// The table as a map from key to value.
    pub open spec fn map(&self) -> Map<K, V> {
        entries_map(self.keys(), self.values())
    }

    /// One value per key, keys strictly ascending.
    pub open spec fn wf(&self) -> bool {
        &&& self.keys().len() == self.values().len()
        &&& ascending(self.keys())
    }

    /// A table that holds nothing.
    pub fn new() -> (t: Self)
        ensures
            t.wf(),
            t.keys() == Seq::<K>::empty(),
            t.values() == Seq::<V>::empty(),
            t.map() == Map::<K, V>::empty(),
    {
        let t = Table { keys: Vec::new(), values: Vec::new() };
        assert(t.map() =~= Map::<K, V>::empty());
        t
    }

    /// The number of keys in the table.
    pub fn len(&self) -> (n: usize)
        requires
            self.wf(),
        ensures
            n == self.keys().len(),
    {
        self.keys.len()
    }

    /// The key at position `i` in ascending order.
    pub fn key_at(&self, i: usize) -> (k: K)
        requires
            self.wf(),
            i < self.keys().len(),
        ensures
            k == self.keys()[i as int],
            self.map().dom().contains(k),
    {
        proof {
            lemma_entries_map_at(self.keys(), self.values(), i as int);
        }
        self.keys[i]
    }

    /// The value stored under the key at position `i`.
    pub fn value_at(&self, i: usize) -> (v: &V)
        requires
            self.wf(),
            i < self.keys().len(),
        ensures
            *v == self.values()[i as int],
            *v == self.map()[self.keys()[i as int]],
    {
        proof {
            lemma_entries_map_at(self.keys(), self.values(), i as int);
        }
        &self.values[i]
    }

    /// The first position whose key does not come before `k`: the number of
    /// keys that come before `k`.
    pub fn lower_bound(&self, k: &K) -> (p: usize)
        requires
            self.wf(),
        ensures
            p <= self.keys().len(),
            forall|i: int| 0 <= i < p ==> (#[trigger] self.keys()[i]).before(*k),
            forall|i: int| p <= i < self.keys().len() ==> !(#[trigger] self.keys()[i]).before(*k),
    {
        let mut low: usize = 0;
        let mut high: usize = self.keys.len();
        while low < high
            invariant
                self.wf(),
                low <= high <= self.keys@.len(),
                forall|i: int| 0 <= i < low ==> (#[trigger] self.keys@[i]).before(*k),
                forall|i: int| high <= i < self.keys@.len() ==> !(#[trigger] self.keys@[i]).before(*k),
            decreases high - low,
        {
            let middle = low + (high - low) / 2;
            if self.keys[middle].comes_before(k) {
                proof {
                    assert forall|i: int| 0 <= i < middle + 1 implies (#[trigger] self.keys@[i]).before(
                        *k,
                    ) by {
                        if i < middle {
                            assert(self.keys@[i].before(self.keys@[middle as int]));
                            K::lemma_strict_total_order(self.keys@[i], self.keys@[middle as int], *k);
                        }
                    }
                }
                low = middle + 1;
            } else {
                proof {
                    assert forall|i: int| middle <= i < self.keys@.len() implies !(
                    #[trigger] self.keys@[i]).before(*k) by {
                        if i > middle {
                            assert(self.keys@[middle as int].before(self.keys@[i]));
                            K::lemma_strict_total_order(self.keys@[middle as int], self.keys@[i], *k);
                        }
                    }
                }
                high = middle;
            }
        }
        low
    }

    /// The position of `k` among the keys, if the table holds it.
    pub fn position(&self, k: &K) -> (r: Option<usize>)
        requires
            self.wf(),
        ensures
            match r {
                Some(i) => i < self.keys().len() && self.keys()[i as int] == *k
                    && self.map().dom().contains(*k),
                None => !self.map().dom().contains(*k),
            },
    {
        let p = self.lower_bound(k);
        if p < self.keys.len() && self.keys[p].same_as(k) {
            proof {
                lemma_entries_map_at(self.keys(), self.values(), p as int);
            }
            Some(p)
        } else {
            proof {
                assert forall|i: int| 0 <= i < self.keys().len() implies self.keys()[i] != *k by {
                    K::lemma_strict_total_order(self.keys()[i], *k, *k);
                }
            }
            None
        }
    }

    /// Whether the table holds a value under `k`.
    pub fn contains_key(&self, k: &K) -> (r: bool)
        requires
            self.wf(),
        ensures
            r == self.map().dom().contains(*k),
    {
        self.position(k).is_some()
    }

    /// The value stored under `k`, if there is one.
    pub fn get(&self, k: &K) -> (r: Option<&V>)
        requires
            self.wf(),
        ensures
            match r {
                Some(v) => self.map().dom().contains(*k) && *v == self.map()[*k],
                None => !self.map().dom().contains(*k),
            },
    {
        match self.position(k) {
            Some(i) => {
                proof {
                    lemma_entries_map_at(self.keys(), self.values(), i as int);
                }
                Some(&self.values[i])
            },
            None => None,
        }
    }

    /// Stores `v` under `k`, replacing what was stored there before.
    pub fn put(&mut self, k: K, v: V)
        requires
            old(self).wf(),
        ensures
            final(self).wf(),
            final(self).map() == old(self).map().insert(k, v),
            old(self).map().dom().contains(k) ==> final(self).keys() == old(self).keys(),
            !old(self).map().dom().contains(k) ==> exists|p: int|
                0 <= p <= old(self).keys().len() && final(self).keys() == old(self).keys().insert(
                    p,
                    k,
                ),
    {
        let p = self.lower_bound(&k);
        let ghost old_keys = self.keys@;
        let ghost old_values = self.values@;
        if p < self.keys.len() && self.keys[p].same_as(&k) {
            self.values[p] = v;
            proof {
                lemma_entries_map_at(old_keys, old_values, p as int);
                assert forall|x: K| old_keys.contains(x) implies #[trigger] entries_map(
                    old_keys,
                    self.values@,
                )[x] == entries_map(old_keys, old_values).insert(k, v)[x] by {
                    let i = old_keys.index_of(x);
                    if x == k {
                        lemma_ascending_distinct(old_keys, i, p as int);
                    }
                }
                assert(self.map() =~= old(self).map().insert(k, v));
            }
        } else {
            self.keys.insert(p, k);
            self.values.insert(p, v);
            proof {
                let new_keys = self.keys@;
                let new_values = self.values@;
                assert(new_keys.len() == old_keys.len() + 1);
                assert(new_values.len() == old_values.len() + 1);
                assert forall|i: int| 0 <= i < new_keys.len() implies #[trigger] new_keys[i] == (if i
                    < p {
                    old_keys[i]
                } else if i == p {
                    k
                } else {
                    old_keys[i - 1]
                }) by {}
                assert forall|i: int| 0 <= i < new_values.len() implies #[trigger] new_values[i] == (
                if i < p {
                    old_values[i]
                } else if i == p {
                    v
                } else {
                    old_values[i - 1]
                }) by {}
                assert forall|i: int| 0 <= i < old_keys.len() implies old_keys[i] != k by {
                    K::lemma_strict_total_order(old_keys[i], k, k);
                    if i > p {
                        K::lemma_strict_total_order(old_keys[p as int], old_keys[i], k);
                        K::lemma_strict_total_order(old_keys[p as int], k, k);
                        assert(old_keys[p as int].before(old_keys[i]));
                    }
                }
                assert(ascending(new_keys)) by {
                    assert forall|i: int, j: int| 0 <= i < j < new_keys.len() implies (
                    #[trigger] new_keys[i]).before(#[trigger] new_keys[j]) by {
                        if i == p {
                            let y = old_keys[j - 1];
                            K::lemma_strict_total_order(k, y, k);
                            assert(old_keys[j - 1] != k);
                        } else if j == p {
                        } else {
                            let ii = if i < p {
                                i
                            } else {
                                i - 1
                            };
                            let jj = if j < p {
                                j
                            } else {
                                j - 1
                            };
                            assert(old_keys[ii].before(old_keys[jj]));
                        }
                    }
                }
                assert forall|x: K| new_keys.contains(x) <==> (x == k || old_keys.contains(x)) by {
                    if new_keys.contains(x) {
                        let i = new_keys.index_of(x);
                        if i < p {
                            assert(old_keys[i] == x);
                        } else if i > p {
                            assert(old_keys[i - 1] == x);
                        }
                    }
                    if x == k {
                        assert(new_keys[p as int] == x);
                    }
                    if old_keys.contains(x) {
                        let i = old_keys.index_of(x);
                        if i < p {
                            assert(new_keys[i] == x);
                        } else {
                            assert(new_keys[i + 1] == x);
                        }
                    }
                }
                assert forall|x: K| new_keys.contains(x) implies #[trigger] entries_map(
                    new_keys,
                    new_values,
                )[x] == entries_map(old_keys, old_values).insert(k, v)[x] by {
                    let i = new_keys.index_of(x);
                    if i < p {
                        lemma_ascending_distinct(old_keys, old_keys.index_of(x), i);
                    } else if i > p {
                        assert(old_keys[i - 1] == x);
                        lemma_ascending_distinct(old_keys, old_keys.index_of(x), i - 1);
                    } else {
                    }
                }
                assert(self.map() =~= old(self).map().insert(k, v));
                assert(!old(self).map().dom().contains(k));
                assert(self.keys() == old(self).keys().insert(p as int, k));
            }
        }
    }

    /// The keys of the table in ascending order.
    pub fn key_list(&self) -> (list: Vec<K>)
        requires
            self.wf(),
        ensures
            list@ == self.keys(),
    {
        let mut list: Vec<K> = Vec::new();
        let mut i: usize = 0;
        while i < self.keys.len()
            invariant
                i <= self.keys@.len(),
                list@ == self.keys@.take(i as int),
            decreases self.keys@.len() - i,
        {
            list.push(self.keys[i]);
            assert(self.keys@.take(i as int).push(self.keys@[i as int]) =~= self.keys@.take(
                i as int + 1,
            ));
            i = i + 1;
        }
        assert(self.keys@.take(i as int) =~= self.keys@);
        list
    }

    /// What other modules may know of a well-formed table: its keys ascend,
    /// and the map holds exactly the keys of the sequence, each with the
    /// value at its position.
    pub proof fn lemma_table(&self)
        requires
            self.wf(),
        ensures
            self.keys().len() == self.values().len(),
            ascending(self.keys()),
            forall|i: int|
                0 <= i < self.keys().len() ==> self.map().dom().contains(#[trigger] self.keys()[i])
                    && self.map()[self.keys()[i]] == self.values()[i],
            forall|k: K| #[trigger] self.map().dom().contains(k) <==> self.keys().contains(k),
            lists_ascending(self.keys(), self.map().dom()),
            self.keys() == ascending_listing(self.map().dom()),
    {
        lemma_listing_of_keys(self.keys(), self.map().dom());
        assert forall|i: int| 0 <= i < self.keys().len() implies self.map().dom().contains(
            #[trigger] self.keys()[i],
        ) && self.map()[self.keys()[i]] == self.values()[i] by {
            lemma_entries_map_at(self.keys(), self.values(), i);
        }
    }
}

} // verus!
