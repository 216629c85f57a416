//! An ordered map from `u64` keys, kept as two parallel vectors sorted by key.

use vstd::prelude::*;

verus! {

/// A map from `u64` keys to values, walked in ascending key order.
pub struct OrdMap<V> {
    keys: Vec<u64>,
    vals: Vec<V>,
}

/// Whether `s` is strictly ascending.
pub open spec fn ascending(s: Seq<u64>) -> bool {
    forall|i: int, j: int| 0 <= i < j < s.len() ==> s[i] < s[j]
}

/// The test for being other than `key`.
pub open spec fn other_than(key: u64) -> spec_fn(u64) -> bool {
    |k: u64| k != key
}

/// `s` without the occurrences of `key`.
pub open spec fn without_key(s: Seq<u64>, key: u64) -> Seq<u64> {
    s.filter(other_than(key))
}

/// Filtering by a predicate that every element meets changes nothing.
pub proof fn lemma_filter_all(s: Seq<u64>, keep: spec_fn(u64) -> bool)
    requires
        forall|i: int| 0 <= i < s.len() ==> keep(#[trigger] s[i]),
    ensures
        s.filter(keep) == s,
    decreases s.len(),
{
    reveal(Seq::filter);
    if s.len() > 0 {
        lemma_filter_all(s.drop_last(), keep);
        assert(s.drop_last().push(s.last()) =~= s);
    }
}

/// Filtering out the key at position `i` of an ascending sequence removes that position.
proof fn lemma_filter_out(s: Seq<u64>, key: u64, i: int)
    requires
        ascending(s),
        0 <= i < s.len(),
        s[i] == key,
    ensures
        without_key(s, key) == s.remove(i),
    decreases s.len(),
{
    reveal(Seq::filter);
    let keep = other_than(key);
    if i == s.len() - 1 {
        lemma_filter_all(s.drop_last(), keep);
        assert(s.remove(i) =~= s.drop_last());
    } else {
        lemma_filter_out(s.drop_last(), key, i);
        assert(s.remove(i) =~= s.drop_last().remove(i).push(s.last()));
    }
}

/// Taking out a key that does not occur changes nothing.
pub proof fn lemma_without_absent(s: Seq<u64>, key: u64)
    requires
        !s.contains(key),
    ensures
        without_key(s, key) == s,
{
    lemma_filter_all(s, other_than(key));
}

impl<V> OrdMap<V> {
    /// Keys strictly ascending, one value for each.
    pub closed spec fn wf(&self) -> bool {
        &&& self.keys@.len() == self.vals@.len()
        &&& ascending(self.keys@)
    }

    /// The keys in ascending order.
    pub closed spec fn order(&self) -> Seq<u64> {
        self.keys@
    }

    /// The mapping itself.
    pub closed spec fn view(&self) -> Map<u64, V> {
        Map::new(
            |k: u64| self.keys@.contains(k),
            |k: u64| self.vals@[self.keys@.index_of(k)],
        )
    }

    /// The walk order lists exactly the keys of the map, in ascending order.
    pub proof fn lemma_order(&self)
        requires
            self.wf(),
        ensures
            ascending(self.order()),
            forall|k: u64| #[trigger] self@.contains_key(k) <==> self.order().contains(k),
            forall|i: int| 0 <= i < self.order().len() ==> self@.contains_key(#[trigger] self.order()[i]),
    {
    }

    proof fn lemma_at(&self, i: int)
        requires
            self.wf(),
            0 <= i < self.keys@.len(),
        ensures
            self@.contains_key(self.keys@[i]),
            self@[self.keys@[i]] == self.vals@[i],
    {
        let k = self.keys@[i];
        assert(self.keys@.contains(k));
        let j = self.keys@.index_of(k);
        assert(self.keys@[j] == k && 0 <= j < self.keys@.len());
        assert(i == j);
    }

    /// An empty map.
    pub fn new() -> (r: Self)
        ensures
            r.wf(),
            r@ == Map::<u64, V>::empty(),
            r.order() == Seq::<u64>::empty(),
    {
        let r = OrdMap { keys: Vec::new(), vals: Vec::new() };
        assert(r@ =~= Map::<u64, V>::empty());
        r
    }

    /// The number of keys.
    pub fn len(&self) -> (r: usize)
        requires
            self.wf(),
        ensures
            r == self.order().len(),
    {
        self.keys.len()
    }

    /// The position of the first key that is not below `key`.
    fn position(&self, key: u64) -> (r: usize)
        requires
            self.wf(),
        ensures
            r <= self.keys@.len(),
            forall|i: int| 0 <= i < r ==> self.keys@[i] < key,
            forall|i: int| r <= i < self.keys@.len() ==> self.keys@[i] >= key,
    {
        let mut i: usize = 0;
        while i < self.keys.len() && self.keys[i] < key
            invariant
                self.wf(),
                i <= self.keys@.len(),
                forall|j: int| 0 <= j < i ==> self.keys@[j] < key,
            decreases self.keys@.len() - i,
        {
            i += 1;
        }
        i
    }

    /// Whether `key` is in the map.
    pub fn contains_key(&self, key: u64) -> (r: bool)
        requires
            self.wf(),
        ensures
            r == self@.contains_key(key),
    {
        self.get(key).is_some()
    }

    /// The value under `key`.
    pub fn get(&self, key: u64) -> (r: Option<&V>)
        requires
            self.wf(),
        ensures
            match r {
                Some(v) => self@.contains_key(key) && *v == self@[key],
                None => !self@.contains_key(key),
            },
    {
        let i: usize = self.position(key);
        if i < self.keys.len() && self.keys[i] == key {
            proof {
                self.lemma_at(i as int);
            }
            Some(&self.vals[i])
        } else {
            assert(!self.keys@.contains(key));
            None
        }
    }

    /// The value under `key`, open to change.
    pub fn get_mut(&mut self, key: u64) -> (r: Option<&mut V>)
        requires
            old(self).wf(),
        ensures
            final(self).wf(),
            final(self).order() == old(self).order(),
            match r {
                Some(v) => {
                    &&& old(self)@.contains_key(key)
                    &&& *v == old(self)@[key]
                    &&& final(self)@ == old(self)@.insert(key, *final(v))
                },
                None => !old(self)@.contains_key(key) && *final(self) == *old(self),
            },
    {
        let i: usize = self.position(key);
        if i < self.keys.len() && self.keys[i] == key {
            proof {
                self.lemma_at(i as int);
                self.lemma_update(i as int);
            }
            Some(&mut self.vals[i])
        } else {
            assert(!self.keys@.contains(key));
            None
        }
    }

    proof fn lemma_update(self, i: int)
        requires
            self.wf(),
            0 <= i < self.keys@.len(),
        ensures
            forall|o: OrdMap<V>|
                o.keys@ == self.keys@ && o.vals@.len() == self.vals@.len() && (forall|j: int|
                    0 <= j < self.vals@.len() && j != i ==> o.vals@[j] == self.vals@[j])
                ==> #[trigger] o@ == self@.insert(self.keys@[i], o.vals@[i]),
    {
        assert forall|o: OrdMap<V>|
            o.keys@ == self.keys@ && o.vals@.len() == self.vals@.len() && (forall|j: int|
                0 <= j < self.vals@.len() && j != i ==> o.vals@[j] == self.vals@[j])
            implies #[trigger] o@ == self@.insert(self.keys@[i], o.vals@[i]) by {
            o.lemma_at(i);
            assert forall|k: u64| self.keys@.contains(k) && k != self.keys@[i] implies o@[k] == self@[k] by {
                let j = self.keys@.index_of(k);
                o.lemma_at(j);
                self.lemma_at(j);
            }
            assert(o@ =~= self@.insert(self.keys@[i], o.vals@[i]));
        }
    }

    /// The key at position `i` of the walk order.
    pub fn key_at(&self, i: usize) -> (r: u64)
        requires
            self.wf(),
            i < self.order().len(),
        ensures
            r == self.order()[i as int],
            self@.contains_key(r),
    {
        proof {
            self.lemma_at(i as int);
        }
        self.keys[i]
    }

    /// The value at position `i` of the walk order.
    pub fn val_at(&self, i: usize) -> (r: &V)
        requires
            self.wf(),
            i < self.order().len(),
        ensures
            self@.contains_key(self.order()[i as int]),
            *r == self@[self.order()[i as int]],
    {
        proof {
            self.lemma_at(i as int);
        }
        &self.vals[i]
    }

    /// Puts `val` under `key`, in place of what was there.
    pub fn insert(&mut self, key: u64, val: V)
        requires
            old(self).wf(),
        ensures
            final(self).wf(),
            final(self)@ == old(self)@.insert(key, val),
            old(self)@.contains_key(key) ==> final(self).order() == old(self).order(),
            (forall|i: int| 0 <= i < old(self).order().len() ==> old(self).order()[i] < key)
                ==> final(self).order() == old(self).order().push(key),
    {
        let i: usize = self.position(key);
        let ghost before = *self;
        if i < self.keys.len() && self.keys[i] == key {
            proof {
                self.lemma_at(i as int);
                self.lemma_update(i as int);
            }
            self.vals[i] = val;
        } else {
            assert(!self.keys@.contains(key));
            self.keys.insert(i, key);
            self.vals.insert(i, val);
            proof {
                assert(self.wf());
                self.lemma_at(i as int);
                assert forall|k: u64| before.keys@.contains(k) implies self@.contains_key(k) && self@[k]
                    == before@[k] by {
                    let j = before.keys@.index_of(k);
                    before.lemma_at(j);
                    if j < i {
                        assert(self.keys@[j] == k);
                        self.lemma_at(j);
                    } else {
                        assert(self.keys@[j + 1] == k);
                        self.lemma_at(j + 1);
                    }
                }
                assert forall|k: u64| self.keys@.contains(k) implies k == key || before.keys@.contains(k) by {
                    let j = self.keys@.index_of(k);
                    if j < i {
                        assert(before.keys@[j] == k);
                    } else if j > i {
                        assert(before.keys@[j - 1] == k);
                    }
                }
                assert(self@ =~= before@.insert(key, val));
                if forall|j: int| 0 <= j < before.order().len() ==> before.order()[j] < key {
                    if i < before.keys@.len() {
                        assert(before.order()[i as int] < key);
                    }
                    assert(self.order() =~= before.order().push(key));
                }
            }
        }
    }

    /// Takes `key` out and returns what it stood for.
    pub fn remove(&mut self, key: u64) -> (r: Option<V>)
        requires
            old(self).wf(),
        ensures
            final(self).wf(),
            final(self)@ == old(self)@.remove(key),
            final(self).order() == without_key(old(self).order(), key),
            match r {
                Some(v) => old(self)@.contains_key(key) && v == old(self)@[key],
                None => !old(self)@.contains_key(key),
            },
    {
        let i: usize = self.position(key);
        let ghost before = *self;
        if i < self.keys.len() && self.keys[i] == key {
            proof {
                self.lemma_at(i as int);
            }
            self.keys.remove(i);
            let v = self.vals.remove(i);
            proof {
                assert(self.wf());
                assert forall|k: u64| before.keys@.contains(k) && k != key implies self@.contains_key(k)
                    && self@[k] == before@[k] by {
                    let j = before.keys@.index_of(k);
                    before.lemma_at(j);
                    if j < i {
                        assert(self.keys@[j] == k);
                        self.lemma_at(j);
                    } else {
                        assert(self.keys@[j - 1] == k);
                        self.lemma_at(j - 1);
                    }
                }
                assert forall|k: u64| self.keys@.contains(k) implies k != key && before.keys@.contains(k) by {
                    let j = self.keys@.index_of(k);
                    if j < i {
                        assert(before.keys@[j] == k);
                    } else {
                        assert(before.keys@[j + 1] == k);
                    }
                }
                assert(self@ =~= before@.remove(key));
                lemma_filter_out(before.keys@, key, i as int);
            }
            Some(v)
        } else {
            assert(!self.keys@.contains(key));
            assert(self@ =~= before@.remove(key));
            proof {
                lemma_without_absent(before.keys@, key);
            }
            None
        }
    }
}

/// A map with each value seen through its view.
pub open spec fn views<V: View>(m: Map<u64, V>) -> Map<u64, V::V> {
    Map::new(|k: u64| m.contains_key(k), |k: u64| m[k]@)
}

/// Replacing one value replaces its view.
pub broadcast proof fn lemma_view_insert<V: View>(m: Map<u64, V>, k: u64, v: V)
    ensures
        #[trigger] views(m.insert(k, v)) == views(m).insert(k, v@),
{
    assert(views(m.insert(k, v)) =~= views(m).insert(k, v@));
}

/// Removing one value removes its view.
pub broadcast proof fn lemma_view_remove<V: View>(m: Map<u64, V>, k: u64)
    ensures
        #[trigger] views(m.remove(k)) == views(m).remove(k),
{
    assert(views(m.remove(k)) =~= views(m).remove(k));
}

/// An empty map has no views.
pub broadcast proof fn lemma_view_empty<V: View>()
    ensures
        #[trigger] views(Map::<u64, V>::empty()) == Map::<u64, V::V>::empty(),
{
    assert(views(Map::<u64, V>::empty()) =~= Map::<u64, V::V>::empty());
}

pub broadcast group group_map_views {
    lemma_view_insert,
    lemma_view_remove,
    lemma_view_empty,
}

} // verus!
