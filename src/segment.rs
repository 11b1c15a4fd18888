//! A segment: the key-to-value map together with the clock evictor that
//! decides which entry leaves when the segment is full.
use std::collections::hash_map::RandomState;
use std::collections::HashMap;
use std::hash::Hash;
use std::sync::Arc;

use vstd::prelude::*;
use vstd::relations::injective_on;
use vstd::set_lib::{lemma_int_range, lemma_len_subset, lemma_map_size, set_int_range};
use vstd::std_specs::hash::{builds_valid_hashers, group_hash_axioms, obeys_key_model};

use crate::eviction::{first_free, lemma_first_free, ClockEvictionStrategy, ClockView};

verus! {

broadcast use group_hash_axioms;

/// Relies on `Arc::clone`: the new handle points to the same allocation as
/// `a`, so it holds the same value.
#[verifier::external_body]
fn share<V>(a: &Arc<V>) -> (r: Arc<V>)
    ensures
        r == *a,
{
    Arc::clone(a)
}

/// The value behind an optional shared handle.
pub open spec fn unshared<V>(r: Option<Arc<V>>) -> Option<V> {
    match r {
        Some(a) => Some(*a),
        None => None,
    }
}

struct CacheEntry<V> {
    value: Arc<V>,
    index: usize,
}

/// A bounded map from keys to shared values. Every resident key occupies one
/// slot of a clock evictor, and every occupied slot belongs to one resident key.
pub struct Segment<K, V> {
    data: HashMap<K, CacheEntry<V>>,
    eviction_strategy: ClockEvictionStrategy<K>,
}

impl<K, V> View for Segment<K, V> {
    type V = Map<K, V>;

    closed spec fn view(&self) -> Map<K, V> {
        self.data@.map_values(|e: CacheEntry<V>| *e.value)
    }
}

impl<K: Eq + Hash + Copy, V> Segment<K, V> {
    /// The evictor's state.
    pub closed spec fn clock(&self) -> ClockView<K> {
        self.eviction_strategy@
    }

    /// The slot that resident key `key` occupies.
    pub closed spec fn slot_of(&self, key: K) -> int {
        self.data@[key].index as int
    }

    /// The segment's invariant: the evictor is well formed, each resident key
    /// occupies the slot that hosts it, and each occupied slot hosts a
    /// resident key.
    pub closed spec fn wf(&self) -> bool {
        &&& obeys_key_model::<K>()
        &&& builds_valid_hashers::<RandomState>()
        &&& self.eviction_strategy.wf()
        &&& forall|k: K| #[trigger]
            self.data@.contains_key(k) ==> {
                let i = self.data@[k].index as int;
                &&& 0 <= i < self.clock().capacity()
                &&& self.clock().slots[i] == Some(k)
            }
        &&& forall|i: int|
            0 <= i < self.clock().capacity() && #[trigger] self.clock().slots[i] is Some ==> {
                let k = self.clock().slots[i]->Some_0;
                &&& self.data@.contains_key(k)
                &&& self.data@[k].index == i
            }
    }

    /// The number of slots.
    pub open spec fn capacity(&self) -> nat {
        self.clock().capacity()
    }

    /// The map after writing `value` for `key`: `None` removes the key; a value
    /// replaces the resident one, or else takes the slot that the evictor hands
    /// out, evicting the key that slot hosted. With no slot at all nothing is
    /// kept.
    pub open spec fn written(&self, key: K, value: Option<V>) -> Map<K, V> {
        match value {
            None => self@.remove(key),
            Some(v) => if self@.contains_key(key) {
                self@.insert(key, v)
            } else if self.capacity() == 0 {
                self@
            } else {
                match self.clock().slots[self.clock().add_slot()] {
                    Some(evicted) => self@.remove(evicted).insert(key, v),
                    None => self@.insert(key, v),
                }
            },
        }
    }

    /// The evictor's state after writing `value` for `key`: a replaced value
    /// touches its slot, a removal frees it, a new key is added.
    pub open spec fn clock_written(&self, key: K, value: Option<V>) -> ClockView<K> {
        if self@.contains_key(key) {
            match value {
                Some(_) => self.clock().touched_at(self.slot_of(key)),
                None => self.clock().released(self.slot_of(key)),
            }
        } else if value is Some && self.capacity() > 0 {
            self.clock().added(key)
        } else {
            self.clock()
        }
    }

    /// The evictor's state after a lookup of `key`: a hit touches its slot.
    pub open spec fn clock_read(&self, key: K) -> ClockView<K> {
        if self@.contains_key(key) {
            self.clock().touched_at(self.slot_of(key))
        } else {
            self.clock()
        }
    }

    /// The slots that host a key.
    pub open spec fn occupied(&self) -> Set<int> {
        Set::new(|i: int| 0 <= i < self.capacity() && self.clock().slots[i] is Some)
    }

    /// Each resident key occupies one slot of its own, so there are as many
    /// resident keys as occupied slots; in particular no more than the capacity.
    /// The segment is full exactly when no slot is free.
    pub proof fn lemma_count(&self)
        requires
            self.wf(),
        ensures
            self@.dom().finite(),
            self@.len() == self.occupied().len(),
            self@.len() <= self.capacity(),
            self.clock().slots.len() == self.capacity(),
            self.capacity() > 0 ==> 0 <= self.clock().hand < self.capacity(),
            self@.len() == self.capacity() <==> !self.clock().has_free_slot(),
            forall|k: K| #[trigger]
                self@.contains_key(k) ==> 0 <= self.slot_of(k) < self.capacity()
                    && self.clock().slots[self.slot_of(k)] == Some(k),
            forall|i: int|
                0 <= i < self.capacity() && #[trigger] self.clock().slots[i] is Some
                    ==> self@.contains_key(self.clock().slots[i]->Some_0),
    {
        self.eviction_strategy.lemma_wf_shape();
        let cap = self.capacity();
        let slots = self.clock().slots;
        let f = |k: K| self.data@[k].index as int;
        assert(self@.dom() =~= self.data@.dom());
        assert(self@.dom().map(f) =~= self.occupied()) by {
            assert forall|i: int| self.occupied().contains(i) implies self@.dom().map(f).contains(
                i,
            ) by {
                let k = slots[i]->Some_0;
                assert(self@.dom().contains(k) && f(k) == i);
            }
        }
        assert(injective_on(f, self@.dom())) by {
            assert forall|a: K, b: K|
                self@.dom().contains(a) && self@.dom().contains(b) && #[trigger] f(a) == #[trigger] f(
                    b,
                ) implies a == b by {
                assert(slots[f(a)] == Some(a));
            }
        }
        lemma_map_size(self@.dom(), self.occupied(), f);
        lemma_int_range(0, cap as int);
        let range = set_int_range(0, cap as int);
        lemma_len_subset(self.occupied(), range);
        lemma_first_free(slots, 0);
        if self.clock().has_free_slot() {
            let j = first_free(slots, 0) as int;
            lemma_len_subset(self.occupied(), range.remove(j));
        } else {
            assert(self.occupied() =~= range);
        }
    }

    /// An empty segment of `capacity` slots.
    pub fn new(capacity: usize) -> (r: Segment<K, V>)
        requires
            obeys_key_model::<K>(),
        ensures
            r.wf(),
            r@ == Map::<K, V>::empty(),
            r.capacity() == capacity,
            r.clock().hand == 0,
            r.clock().touched == Seq::new(capacity as nat, |i: int| false),
            r.clock().slots == Seq::new(capacity as nat, |i: int| None::<K>),
    {
        let eviction_strategy = ClockEvictionStrategy::new(capacity);
        let r = Segment { data: HashMap::with_capacity(capacity), eviction_strategy };
        assert(r@ =~= Map::<K, V>::empty());
        r
    }

    /// The value held for `key`, if any; a hit touches the key's slot.
    pub fn get(&mut self, key: &K) -> (r: Option<Arc<V>>)
        requires
            old(self).wf(),
        ensures
            final(self).wf(),
            unshared(r) == old(self)@.get(*key),
            final(self)@ == old(self)@,
            final(self).clock() == old(self).clock_read(*key),
    {
        match self.data.get(key) {
            Some(entry) => {
                let index = entry.index;
                let value = share(&entry.value);
                self.eviction_strategy.touch(index);
                Some(value)
            },
            None => None,
        }
    }

    /// The value held for `key`, if any, without counting it as a use.
    pub fn peek(&self, key: &K) -> (r: Option<Arc<V>>)
        requires
            self.wf(),
        ensures
            unshared(r) == self@.get(*key),
    {
        match self.data.get(key) {
            Some(entry) => Some(share(&entry.value)),
            None => None,
        }
    }

    /// Writes `value` for `key` and returns it: `None` removes the key and
    /// frees its slot; a value replaces the resident one and touches its slot,
    /// or, for a key not resident, takes a slot from the evictor, and the key
    /// that slot hosted is evicted.
    pub fn write(&mut self, key: K, value: Option<V>) -> (r: Option<Arc<V>>)
        requires
            old(self).wf(),
        ensures
            final(self).wf(),
            unshared(r) == value,
            final(self)@ == old(self).written(key, value),
            final(self).clock() == old(self).clock_written(key, value),
    {
        let ghost old_map = self@;
        proof {
            self.eviction_strategy.lemma_wf_shape();
        }
        match self.data.get(&key) {
            Some(entry) => {
                let index = entry.index;
                match value {
                    Some(v) => {
                        let shared = Arc::new(v);
                        let r = share(&shared);
                        self.data.insert(key, CacheEntry { value: shared, index });
                        self.eviction_strategy.touch(index);
                        assert(self@ =~= old_map.insert(key, *r));
                        Some(r)
                    },
                    None => {
                        self.data.remove(&key);
                        self.eviction_strategy.release(index);
                        assert(self@ =~= old_map.remove(key));
                        None
                    },
                }
            },
            None => match value {
                Some(v) => {
                    let shared = Arc::new(v);
                    let r = share(&shared);
                    if self.eviction_strategy.capacity() == 0 {
                        return Some(r);
                    }
                    let (index, evicted) = self.eviction_strategy.add(key);
                    match evicted {
                        Some(old_key) => {
                            self.data.remove(&old_key);
                        },
                        None => {},
                    }
                    self.data.insert(key, CacheEntry { value: shared, index });
                    proof {
                        old(self).eviction_strategy.lemma_wf_shape();
                        self.eviction_strategy.lemma_wf_shape();
                        let slots = self.clock().slots;
                        assert forall|k: K| #[trigger] self.data@.contains_key(k) implies {
                            let i = self.data@[k].index as int;
                            &&& 0 <= i < self.clock().capacity()
                            &&& slots[i] == Some(k)
                        } by {
                            if k != key {
                                assert(old(self).data@.contains_key(k));
                                assert(old(self).clock().slots[old(self).data@[k].index as int]
                                    == Some(k));
                            }
                        }
                        assert forall|i: int|
                            0 <= i < self.clock().capacity() && #[trigger] slots[i] is Some implies {
                            let k = slots[i]->Some_0;
                            &&& self.data@.contains_key(k)
                            &&& self.data@[k].index == i
                        } by {
                            if i != index {
                                assert(old(self).clock().slots[i] is Some);
                            }
                        }
                    }
                    assert(self@ =~= old(self).written(key, value));
                    Some(r)
                },
                None => {
                    assert(self@ =~= old_map.remove(key));
                    None
                },
            },
        }
    }

    /// The value for `key`. On a hit the key's slot is touched and
    /// `populating_fn` is not called; on a miss `populating_fn` is called with
    /// the key and what it returns is written.
    pub fn get_or_populate<F: Fn(&K) -> Option<V>>(&mut self, key: K, populating_fn: F) -> (r:
        Option<Arc<V>>)
        requires
            old(self).wf(),
            populating_fn.requires((&key,)),
        ensures
            final(self).wf(),
            old(self)@.contains_key(key) ==> {
                &&& unshared(r) == Some(old(self)@[key])
                &&& final(self)@ == old(self)@
                &&& final(self).clock() == old(self).clock_read(key)
            },
            !old(self)@.contains_key(key) ==> exists|v: Option<V>|
                {
                    &&& #[trigger] populating_fn.ensures((&key,), v)
                    &&& unshared(r) == v
                    &&& final(self)@ == old(self).written(key, v)
                    &&& final(self).clock() == old(self).clock_written(key, v)
                },
    {
        if self.data.contains_key(&key) {
            return self.get(&key);
        }
        let value = populating_fn(&key);
        self.write(key, value)
    }

    /// Calls `updating_fn` with `key` and the value held for it (if any), and
    /// writes what it returns: a value is stored (replacing the previous one, or
    /// taking a slot), nothing removes the key.
    pub fn update<F: Fn(&K, Option<Arc<V>>) -> Option<V>>(&mut self, key: K, updating_fn: F) -> (r:
        Option<Arc<V>>)
        requires
            old(self).wf(),
            forall|previous: Option<Arc<V>>| updating_fn.requires((&key, previous)),
        ensures
            final(self).wf(),
            exists|previous: Option<Arc<V>>, v: Option<V>|
                {
                    &&& unshared(previous) == old(self)@.get(key)
                    &&& #[trigger] updating_fn.ensures((&key, previous), v)
                    &&& unshared(r) == v
                    &&& final(self)@ == old(self).written(key, v)
                    &&& final(self).clock() == old(self).clock_written(key, v)
                },
    {
        let previous = self.peek(&key);
        let value = updating_fn(&key, previous);
        self.write(key, value)
    }

    /// The number of resident keys.
    pub fn len(&self) -> (r: usize)
        requires
            self.wf(),
        ensures
            r == self@.len(),
    {
        assert(self.data@.dom() =~= self@.dom());
        self.data.len()
    }
}

} // verus!
