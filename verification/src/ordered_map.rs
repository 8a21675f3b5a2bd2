//! Maps and sets in the order of their keys' bytes.

use crate::primitives::{
    compare_bytes, lemma_lex_irreflexive, lemma_lex_transitive, lex_lt, H256, Order,
};
use vstd::prelude::*;

verus! {

/// A key that is told from others by its bytes.
pub trait ByteKey: Sized {
    spec fn key(&self) -> Seq<u8>;

    fn key_bytes(&self) -> (r: &[u8])
        ensures
            r@ == self.key(),
    ;
}

impl ByteKey for Vec<u8> {
    open spec fn key(&self) -> Seq<u8> {
        self@
    }

    fn key_bytes(&self) -> (r: &[u8]) {
        self.as_slice()
    }
}

impl ByteKey for H256 {
    open spec fn key(&self) -> Seq<u8> {
        self@
    }

    fn key_bytes(&self) -> (r: &[u8]) {
        self.as_slice()
    }
}

/// A map whose entries stand in the order of their keys' bytes.
pub struct OrderedMap<K, V> {
    entries: Vec<(K, V)>,
}

/// Whether keys ascend strictly.
pub open spec fn ascending(keys: Seq<Seq<u8>>) -> bool {
    forall|i: int, j: int| 0 <= i < j < keys.len() ==> #[trigger] lex_lt(keys[i], keys[j])
}

/// Whether `keys` and `values` list a map in the order of its keys.
pub open spec fn lists<X>(keys: Seq<Seq<u8>>, values: Seq<X>, map: Map<Seq<u8>, X>) -> bool {
    &&& keys.len() == values.len()
    &&& ascending(keys)
    &&& forall|i: int|
        0 <= i < keys.len() ==> map.dom().contains(#[trigger] keys[i]) && map[keys[i]] == values[i]
    &&& forall|k: Seq<u8>| #[trigger] map.dom().contains(k) ==> keys.contains(k)
}

/// Keys that ascend are distinct.
pub proof fn lemma_ascending_distinct(keys: Seq<Seq<u8>>)
    requires
        ascending(keys),
    ensures
        keys.no_duplicates(),
{
    assert forall|i: int, j: int|
        0 <= i < keys.len() && 0 <= j < keys.len() && i != j implies keys[i] != keys[j] by {
        lemma_lex_irreflexive(keys[i]);
        if i < j {
            assert(lex_lt(keys[i], keys[j]));
        } else {
            assert(lex_lt(keys[j], keys[i]));
        }
    }
}

/// A map that is listed is finite, with as many keys as the list.
pub proof fn lemma_listed_len<X>(keys: Seq<Seq<u8>>, values: Seq<X>, map: Map<Seq<u8>, X>)
    requires
        lists(keys, values, map),
    ensures
        map.dom().finite(),
        map.dom().len() == keys.len(),
        map.dom() == keys.to_set(),
{
    lemma_ascending_distinct(keys);
    keys.unique_seq_to_set();
    assert(map.dom() =~= keys.to_set());
}

impl<K: ByteKey, V: View> OrderedMap<K, V> {
    /// The keys, in order.
    pub closed spec fn keys(&self) -> Seq<Seq<u8>> {
        self.entries@.map_values(|e: (K, V)| e.0.key())
    }

    /// The values, in the order of the keys.
    pub closed spec fn values(&self) -> Seq<V::V> {
        self.entries@.map_values(|e: (K, V)| e.1@)
    }

    /// Whether the entries are in order.
    pub open spec fn wf(&self) -> bool {
        ascending(self.keys()) && self.keys().len() == self.values().len()
    }

    /// The key at a position.
    pub closed spec fn stored_key(&self, i: int) -> K {
        self.entries@[i].0
    }
}

impl<K: ByteKey, V: View> View for OrderedMap<K, V> {
    type V = Map<Seq<u8>, V::V>;

    open spec fn view(&self) -> Map<Seq<u8>, V::V> {
        Map::new(
            |k: Seq<u8>| self.keys().contains(k),
            |k: Seq<u8>| self.values()[self.keys().index_of(k)],
        )
    }
}

impl<K: ByteKey, V: View> OrderedMap<K, V> {
    /// The entries list the map.
    pub proof fn lemma_lists(&self)
        requires
            self.wf(),
        ensures
            lists(self.keys(), self.values(), self@),
            self@.dom().finite(),
            self@.dom().len() == self.keys().len(),
    {
        lemma_ascending_distinct(self.keys());
        assert forall|i: int| 0 <= i < self.keys().len() implies self@.dom().contains(
            #[trigger] self.keys()[i],
        ) && self@[self.keys()[i]] == self.values()[i] by {
            let k = self.keys()[i];
            assert(self.keys().contains(k));
            assert(self.keys().index_of(k) == i);
        }
        lemma_listed_len(self.keys(), self.values(), self@);
    }

    /// An empty map.
    pub fn new() -> (r: Self)
        ensures
            r.wf(),
            r@ == Map::<Seq<u8>, V::V>::empty(),
    {
        let r = OrderedMap { entries: Vec::new() };
        proof {
            assert(r@ =~= Map::<Seq<u8>, V::V>::empty());
        }
        r
    }

    /// The number of keys.
    pub fn len(&self) -> (r: usize)
        requires
            self.wf(),
        ensures
            r == self.keys().len(),
            r == self@.dom().len(),
            self@.dom().finite(),
    {
        proof {
            self.lemma_lists();
        }
        self.entries.len()
    }

    /// The key at a position.
    pub fn key_at(&self, i: usize) -> (r: &K)
        requires
            i < self.keys().len(),
        ensures
            r.key() == self.keys()[i as int],
            *r == self.stored_key(i as int),
    {
        &self.entries[i].0
    }

    /// The value at a position.
    pub fn value_at(&self, i: usize) -> (r: &V)
        requires
            self.wf(),
            i < self.keys().len(),
        ensures
            r@ == self.values()[i as int],
    {
        &self.entries[i].1
    }

    /// The first position whose key is not before `key`, and whether it holds `key`.
    fn find(&self, key: &[u8]) -> (r: (usize, bool))
        requires
            self.wf(),
        ensures
            r.0 <= self.keys().len(),
            forall|i: int| 0 <= i < r.0 ==> lex_lt(#[trigger] self.keys()[i], key@),
            r.1 ==> r.0 < self.keys().len() && self.keys()[r.0 as int] == key@,
            !r.1 ==> forall|i: int|
                r.0 <= i < self.keys().len() ==> lex_lt(key@, #[trigger] self.keys()[i]),
            r.1 == self@.dom().contains(key@),
            r.1 ==> self@[key@] == self.values()[r.0 as int],
    {
        let mut lo: usize = 0;
        let mut hi: usize = self.entries.len();
        let ghost keys = self.keys();
        proof {
            self.lemma_lists();
        }
        while lo < hi
            invariant
                0 <= lo <= hi <= keys.len(),
                keys == self.keys(),
                keys.len() == self.entries@.len(),
                ascending(keys),
                self.wf(),
                lists(self.keys(), self.values(), self@),
                forall|i: int| 0 <= i < lo ==> lex_lt(#[trigger] keys[i], key@),
                forall|i: int| hi <= i < keys.len() ==> lex_lt(key@, #[trigger] keys[i]),
            decreases hi - lo,
        {
            let mid: usize = lo + (hi - lo) / 2;
            let order = compare_bytes(self.entries[mid].0.key_bytes(), key);
            proof {
                assert(self.entries@[mid as int].0.key() == keys[mid as int]);
            }
            match order {
                Order::Same => {
                    proof {
                        assert forall|i: int| 0 <= i < mid implies lex_lt(
                            #[trigger] keys[i],
                            key@,
                        ) by {
                            assert(lex_lt(keys[i], keys[mid as int]));
                        }
                    }
                    return (mid, true);
                },
                Order::Before => {
                    proof {
                        assert forall|i: int| 0 <= i < mid + 1 implies lex_lt(
                            #[trigger] keys[i],
                            key@,
                        ) by {
                            if i < mid {
                                assert(lex_lt(keys[i], keys[mid as int]));
                                lemma_lex_transitive(keys[i], keys[mid as int], key@);
                            }
                        }
                    }
                    lo = mid + 1;
                },
                Order::After => {
                    proof {
                        assert forall|i: int| mid <= i < keys.len() implies lex_lt(
                            key@,
                            #[trigger] keys[i],
                        ) by {
                            if i > mid {
                                assert(lex_lt(keys[mid as int], keys[i]));
                                lemma_lex_transitive(key@, keys[mid as int], keys[i]);
                            }
                        }
                    }
                    hi = mid;
                },
            }
        }
        proof {
            if self@.dom().contains(key@) {
                let i = choose|i: int| 0 <= i < keys.len() && keys[i] == key@;
                lemma_lex_irreflexive(key@);
                if i < lo {
                    assert(lex_lt(keys[i], key@));
                } else {
                    assert(lex_lt(key@, keys[i]));
                }
            }
        }
        (lo, false)
    }

    /// Whether the map has a key.
    pub fn contains(&self, key: &[u8]) -> (r: bool)
        requires
            self.wf(),
        ensures
            r == self@.dom().contains(key@),
    {
        self.find(key).1
    }

    /// The value of a key.
    pub fn get(&self, key: &[u8]) -> (r: Option<&V>)
        requires
            self.wf(),
        ensures
            match r {
                Some(v) => self@.dom().contains(key@) && v@ == self@[key@],
                None => !self@.dom().contains(key@),
            },
    {
        let (i, found) = self.find(key);
        if found {
            Some(&self.entries[i].1)
        } else {
            None
        }
    }

    /// Gives a key a value, in place of the one it had.
    pub fn insert(&mut self, key: K, value: V)
        requires
            old(self).wf(),
        ensures
            final(self).wf(),
            final(self)@ == old(self)@.insert(key.key(), value@),
    {
        let ghost before = *self;
        let (i, found) = self.find(key.key_bytes());
        if found {
            self.entries[i] = (key, value);
            proof {
                before.lemma_lists();
                assert(self.keys() =~= before.keys());
                assert(self.values() =~= before.values().update(i as int, value@));
                self.lemma_lists();
                assert forall|k: Seq<u8>| #[trigger]
                    self@.dom().contains(k) implies self@[k] == before@.insert(
                    key.key(),
                    value@,
                )[k] by {
                    let j = choose|j: int| 0 <= j < self.keys().len() && self.keys()[j] == k;
                    assert(self@[self.keys()[j]] == self.values()[j]);
                    assert(before@[before.keys()[j]] == before.values()[j]);
                    if j == i {
                        assert(k == key.key());
                    } else {
                        lemma_ascending_distinct(self.keys());
                    }
                }
                assert(self@ =~= before@.insert(key.key(), value@));
            }
        } else {
            self.entries.insert(i, (key, value));
            proof {
                before.lemma_lists();
                assert(self.keys() =~= before.keys().insert(i as int, key.key()));
                assert(self.values() =~= before.values().insert(i as int, value@));
                assert forall|a: int, b: int| 0 <= a < b < self.keys().len() implies #[trigger] lex_lt(
                    self.keys()[a],
                    self.keys()[b],
                ) by {
                    let ka = if a < i {
                        a
                    } else {
                        a - 1
                    };
                    let kb = if b < i {
                        b
                    } else {
                        b - 1
                    };
                    if a == i {
                        assert(lex_lt(key.key(), before.keys()[kb]));
                    } else if b == i {
                        assert(lex_lt(before.keys()[ka], key.key()));
                    } else {
                        assert(lex_lt(before.keys()[ka], before.keys()[kb]));
                    }
                }
                self.lemma_lists();
                assert forall|k: Seq<u8>| #[trigger]
                    self@.dom().contains(k) implies before@.insert(key.key(), value@).dom().contains(
                    k,
                ) && self@[k] == before@.insert(key.key(), value@)[k] by {
                    let j = choose|j: int| 0 <= j < self.keys().len() && self.keys()[j] == k;
                    assert(self@[self.keys()[j]] == self.values()[j]);
                    if j < i {
                        assert(before@[before.keys()[j]] == before.values()[j]);
                    } else if j > i {
                        assert(before@[before.keys()[j - 1]] == before.values()[j - 1]);
                    }
                    if j != i {
                        lemma_ascending_distinct(self.keys());
                        assert(self.keys()[i as int] == key.key());
                    }
                }
                assert forall|k: Seq<u8>| #[trigger]
                    before@.insert(key.key(), value@).dom().contains(k) implies self@.dom().contains(
                    k,
                ) by {
                    if k == key.key() {
                        assert(self.keys()[i as int] == k);
                    } else {
                        assert(before@.dom().contains(k));
                        let j = choose|j: int| 0 <= j < before.keys().len() && before.keys()[j] == k;
                        if j < i {
                            assert(self.keys()[j] == k);
                        } else {
                            assert(self.keys()[j + 1] == k);
                        }
                    }
                }
                assert(self@ =~= before@.insert(key.key(), value@));
            }
        }
    }

    /// Takes a key out of the map, and gives the value that it had.
    pub fn remove(&mut self, key: &[u8]) -> (r: Option<V>)
        requires
            old(self).wf(),
        ensures
            final(self).wf(),
            final(self)@ == old(self)@.remove(key@),
            match r {
                Some(v) => old(self)@.dom().contains(key@) && v@ == old(self)@[key@],
                None => !old(self)@.dom().contains(key@),
            },
    {
        let ghost before = *self;
        let (i, found) = self.find(key);
        if found {
            let (_, value) = self.entries.remove(i);
            proof {
                before.lemma_lists();
                assert(self.keys() =~= before.keys().remove(i as int));
                assert(self.values() =~= before.values().remove(i as int));
                lemma_ascending_distinct(before.keys());
                assert forall|a: int, b: int| 0 <= a < b < self.keys().len() implies #[trigger] lex_lt(
                    self.keys()[a],
                    self.keys()[b],
                ) by {
                    let ka = if a < i {
                        a
                    } else {
                        a + 1
                    };
                    let kb = if b < i {
                        b
                    } else {
                        b + 1
                    };
                    assert(lex_lt(before.keys()[ka], before.keys()[kb]));
                }
                self.lemma_lists();
                assert forall|k: Seq<u8>| #[trigger]
                    self@.dom().contains(k) implies before@.remove(key@).dom().contains(k)
                    && self@[k] == before@.remove(key@)[k] by {
                    let j = choose|j: int| 0 <= j < self.keys().len() && self.keys()[j] == k;
                    let p = if j < i {
                        j
                    } else {
                        j + 1
                    };
                    assert(before.keys()[p] == k);
                    assert(before@[before.keys()[p]] == before.values()[p]);
                    assert(self@[self.keys()[j]] == self.values()[j]);
                    assert(before.keys()[i as int] == key@);
                }
                assert forall|k: Seq<u8>| #[trigger]
                    before@.remove(key@).dom().contains(k) implies self@.dom().contains(k) by {
                    assert(before@.dom().contains(k));
                    let j = choose|j: int| 0 <= j < before.keys().len() && before.keys()[j] == k;
                    if j < i {
                        assert(self.keys()[j] == k);
                    } else {
                        assert(self.keys()[j - 1] == k);
                    }
                }
                assert(self@ =~= before@.remove(key@));
            }
            Some(value)
        } else {
            proof {
                assert(self@ =~= before@.remove(key@));
            }
            None
        }
    }
}

/// A set whose members stand in the order of their bytes.
pub struct OrderedSet<K> {
    map: OrderedMap<K, ()>,
}

impl<K: ByteKey> View for OrderedSet<K> {
    type V = Set<Seq<u8>>;

    closed spec fn view(&self) -> Set<Seq<u8>> {
        self.map@.dom()
    }
}

impl<K: ByteKey> OrderedSet<K> {
    /// The members, in order.
    pub closed spec fn items(&self) -> Seq<Seq<u8>> {
        self.map.keys()
    }

    /// Whether the members are in order.
    pub closed spec fn wf(&self) -> bool {
        self.map.wf()
    }

    /// The member at a position.
    pub closed spec fn item(&self, i: int) -> K {
        self.map.stored_key(i)
    }

    /// The items list the set.
    pub proof fn lemma_items(&self)
        requires
            self.wf(),
        ensures
            ascending(self.items()),
            self.items().no_duplicates(),
            self@ == self.items().to_set(),
            self@.finite(),
            self@.len() == self.items().len(),
    {
        self.map.lemma_lists();
        lemma_ascending_distinct(self.items());
        lemma_listed_len(self.map.keys(), self.map.values(), self.map@);
    }

    /// An empty set.
    pub fn new() -> (r: Self)
        ensures
            r.wf(),
            r@ == Set::<Seq<u8>>::empty(),
    {
        let r = OrderedSet { map: OrderedMap::new() };
        proof {
            assert(r@ =~= Set::<Seq<u8>>::empty());
        }
        r
    }

    /// The number of members.
    pub fn len(&self) -> (r: usize)
        requires
            self.wf(),
        ensures
            r == self.items().len(),
            r == self@.len(),
            self@.finite(),
    {
        self.map.len()
    }

    /// The member at a position.
    pub fn at(&self, i: usize) -> (r: &K)
        requires
            i < self.items().len(),
        ensures
            r.key() == self.items()[i as int],
            *r == self.item(i as int),
    {
        self.map.key_at(i)
    }

    /// Whether the set has a member.
    pub fn contains(&self, key: &[u8]) -> (r: bool)
        requires
            self.wf(),
        ensures
            r == self@.contains(key@),
    {
        self.map.contains(key)
    }

    /// Adds a member.
    pub fn insert(&mut self, key: K)
        requires
            old(self).wf(),
        ensures
            final(self).wf(),
            final(self)@ == old(self)@.insert(key.key()),
    {
        let ghost before = self@;
        self.map.insert(key, ());
        proof {
            assert(self@ =~= before.insert(key.key()));
        }
    }

    /// Removes a member.
    pub fn remove(&mut self, key: &[u8])
        requires
            old(self).wf(),
        ensures
            final(self).wf(),
            final(self)@ == old(self)@.remove(key@),
    {
        let ghost before = self@;
        let _ = self.map.remove(key);
        proof {
            assert(self@ =~= before.remove(key@));
        }
    }
}

} // verus!
