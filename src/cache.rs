//! The cache-through cache: lookups populate missing entries with a function
//! of the caller, updates compute the new value from the previous one.
use std::hash::Hash;
use std::sync::Arc;

use vstd::prelude::*;
use vstd::std_specs::hash::obeys_key_model;

use crate::eviction::{lemma_clock_victim_in_range, lemma_first_free, ClockView};
use crate::segment::{unshared, Segment};

verus! {

/// A bounded cache that populates entries on misses with a function of the
/// caller, and evicts with a clock when it reaches capacity.
///
/// Values are handed out as shared handles: an update stores a new value and
/// leaves the handles given out before it as they were.
pub struct CacheThrough<K, V> {
    data: Segment<K, V>,
}

impl<K, V> View for CacheThrough<K, V> {
    type V = Map<K, V>;

    closed spec fn view(&self) -> Map<K, V> {
        self.data@
    }
}

impl<K: Eq + Hash + Copy, V> CacheThrough<K, V> {
    /// The segment that holds the entries.
    pub closed spec fn segment(&self) -> Segment<K, V> {
        self.data
    }

    /// The cache's invariant.
    pub open spec fn wf(&self) -> bool {
        &&& self.segment().wf()
        &&& self.segment()@ == self@
    }

    /// The most entries the cache holds.
    pub open spec fn capacity(&self) -> nat {
        self.segment().capacity()
    }

    /// The evictor's state.
    pub open spec fn clock(&self) -> ClockView<K> {
        self.segment().clock()
    }

    /// Whether `after` is this cache once `value` has been written for `key`.
    pub open spec fn writes_to(&self, key: K, value: Option<V>, after: &Self) -> bool {
        &&& after.wf()
        &&& after@ == self.segment().written(key, value)
        &&& after.clock() == self.segment().clock_written(key, value)
    }

    /// Whether `after` is this cache once `key` has been looked up with a hit.
    pub open spec fn reads_to(&self, key: K, after: &Self) -> bool {
        &&& after.wf()
        &&& after@ == self@
        &&& after.clock() == self.segment().clock_read(key)
    }

    /// Whether `r` and `after` are what `get(key, populating_fn)` returns and
    /// leaves on this cache: on a hit the held value, with the entry touched;
    /// on a miss what `populating_fn` returned for the key, written.
    pub open spec fn gets_to<F: Fn(&K) -> Option<V>>(
        &self,
        key: K,
        populating_fn: F,
        r: Option<Arc<V>>,
        after: &Self,
    ) -> bool {
        if self@.contains_key(key) {
            &&& unshared(r) == Some(self@[key])
            &&& self.reads_to(key, after)
        } else {
            exists|v: Option<V>|
                {
                    &&& #[trigger] populating_fn.ensures((&key,), v)
                    &&& unshared(r) == v
                    &&& self.writes_to(key, v, after)
                }
        }
    }

    /// Whether `r` and `after` are what `update(key, updating_fn)` returns and
    /// leaves on this cache: what `updating_fn` returned for the key and its
    /// previous value, written.
    pub open spec fn updates_to<F: Fn(&K, Option<Arc<V>>) -> Option<V>>(
        &self,
        key: K,
        updating_fn: F,
        r: Option<Arc<V>>,
        after: &Self,
    ) -> bool {
        exists|previous: Option<Arc<V>>, v: Option<V>|
            {
                &&& unshared(previous) == self@.get(key)
                &&& #[trigger] updating_fn.ensures((&key, previous), v)
                &&& unshared(r) == v
                &&& self.writes_to(key, v, after)
            }
    }

    /// An empty cache that holds at most `capacity` entries. With a capacity
    /// of zero every lookup misses and nothing is kept.
    pub fn new(capacity: usize) -> (r: CacheThrough<K, V>)
        requires
            obeys_key_model::<K>(),
        ensures
            r.wf(),
            r@ == Map::<K, V>::empty(),
            r.capacity() == capacity,
            r.clock().hand == 0,
            r.clock().touched == Seq::new(capacity as nat, |i: int| false),
            r.clock().slots == Seq::new(capacity as nat, |i: int| None::<K>),
    {
        CacheThrough { data: Segment::new(capacity) }
    }

    /// The value for `key`. On a hit the entry counts as used and
    /// `populating_fn` is not called. On a miss `populating_fn` is called with
    /// the key: a value that it returns is stored (evicting an entry when the
    /// cache is full) and returned; when it returns nothing, nothing is stored.
    pub fn get<F: Fn(&K) -> Option<V>>(&mut self, key: K, populating_fn: F) -> (r: Option<
        Arc<V>,
    >)
        requires
            old(self).wf(),
            populating_fn.requires((&key,)),
        ensures
            old(self).gets_to(key, populating_fn, r, final(self)),
    {
        match self.data.get(&key) {
            Some(value) => Some(value),
            None => self.data.get_or_populate(key, populating_fn),
        }
    }

    /// Calls `updating_fn` with `key` and the value held for it, if any, and
    /// stores what it returns: a value replaces the previous one (or is
    /// inserted, evicting an entry when the cache is full) and is returned;
    /// nothing removes the entry.
    pub fn update<F: Fn(&K, Option<Arc<V>>) -> Option<V>>(&mut self, key: K, updating_fn: F) -> (r:
        Option<Arc<V>>)
        requires
            old(self).wf(),
            forall|previous: Option<Arc<V>>| updating_fn.requires((&key, previous)),
        ensures
            old(self).updates_to(key, updating_fn, r, final(self)),
    {
        self.data.update(key, updating_fn)
    }

    /// Removes the entry for `key`, if any: the same as an update whose
    /// function returns nothing.
    pub fn remove(&mut self, key: K)
        requires
            old(self).wf(),
        ensures
            old(self).writes_to(key, None, final(self)),
    {
        self.data.write(key, None);
    }

    /// A cache never holds more entries than its capacity.
    pub proof fn lemma_len_within_capacity(&self)
        requires
            self.wf(),
        ensures
            self@.len() <= self.capacity(),
    {
        self.segment().lemma_count();
    }

    /// Below capacity, storing a value for a key that is not held adds the
    /// entry and evicts nothing: one entry more.
    pub proof fn lemma_insert_below_capacity(&self, key: K, v: V)
        requires
            self.wf(),
            !self@.contains_key(key),
            self@.len() < self.capacity(),
        ensures
            self.segment().written(key, Some(v)) == self@.insert(key, v),
            self.segment().written(key, Some(v)).len() == self@.len() + 1,
    {
        let seg = self.segment();
        seg.lemma_count();
        lemma_first_free(seg.clock().slots, 0);
    }

    /// At capacity, storing a value for a key that is not held evicts exactly
    /// one held entry, the one in the slot that the clock picks: the number of
    /// entries stays the same.
    pub proof fn lemma_insert_at_capacity_evicts_one(&self, key: K, v: V)
        requires
            self.wf(),
            !self@.contains_key(key),
            self.capacity() >= 1,
            self@.len() == self.capacity(),
        ensures
            exists|evicted: K|
                {
                    &&& #[trigger] self@.contains_key(evicted)
                    &&& evicted != key
                    &&& self.clock().slots[self.clock().add_slot()] == Some(evicted)
                    &&& self.segment().written(key, Some(v)) == self@.remove(evicted).insert(
                        key,
                        v,
                    )
                },
            self.segment().written(key, Some(v)).len() == self@.len(),
    {
        let seg = self.segment();
        seg.lemma_count();
        lemma_first_free(seg.clock().slots, 0);
        lemma_clock_victim_in_range(seg.clock().touched, seg.clock().hand);
        let s = seg.clock().add_slot();
        assert(seg.clock().slots[s] is Some);
        let evicted = seg.clock().slots[s]->Some_0;
        assert(self@.contains_key(evicted));
    }

    /// A `get` of a key that is not held, with a function that returns a
    /// value, stores the key; the cache grows by one entry until it is full,
    /// and from then on each such `get` evicts exactly one entry that it held.
    pub proof fn lemma_populating_get_of_new_key<F: Fn(&K) -> Option<V>>(
        &self,
        key: K,
        populating_fn: F,
        r: Option<Arc<V>>,
        after: &Self,
    )
        requires
            self.wf(),
            !self@.contains_key(key),
            self.capacity() >= 1,
            forall|v: Option<V>| #[trigger] populating_fn.ensures((&key,), v) ==> v is Some,
            self.gets_to(key, populating_fn, r, after),
        ensures
            after@.contains_key(key),
            unshared(r) == Some(after@[key]),
            after@.len() <= self.capacity(),
            self@.len() < self.capacity() ==> after@ == self@.insert(key, after@[key])
                && after@.len() == self@.len() + 1,
            self@.len() == self.capacity() ==> after@.len() == self@.len() && exists|evicted: K|
                {
                    &&& #[trigger] self@.contains_key(evicted)
                    &&& !after@.contains_key(evicted)
                    &&& after@ == self@.remove(evicted).insert(key, after@[key])
                },
    {
        let v = choose|v: Option<V>|
            {
                &&& #[trigger] populating_fn.ensures((&key,), v)
                &&& unshared(r) == v
                &&& self.writes_to(key, v, after)
            };
        let value = v->Some_0;
        self.lemma_len_within_capacity();
        after.lemma_len_within_capacity();
        if self@.len() < self.capacity() {
            self.lemma_insert_below_capacity(key, value);
        } else {
            self.lemma_insert_at_capacity_evicts_one(key, value);
            let evicted = choose|evicted: K|
                {
                    &&& #[trigger] self@.contains_key(evicted)
                    &&& evicted != key
                    &&& self.clock().slots[self.clock().add_slot()] == Some(evicted)
                    &&& self.segment().written(key, Some(value)) == self@.remove(evicted).insert(
                        key,
                        value,
                    )
                };
            assert(!after@.contains_key(evicted));
        }
    }

    /// Looking up a key that is not held, with a function that returns
    /// nothing, stores nothing; so does removing a key that is not held.
    pub proof fn lemma_nothing_for_absent_key(&self, key: K)
        requires
            self.wf(),
            !self@.contains_key(key),
        ensures
            self.segment().written(key, None) == self@,
            self.segment().clock_written(key, None) == self.clock(),
    {
        assert(self@.remove(key) =~= self@);
    }

    /// Updating a held key with a value replaces its value and touches its
    /// slot: the number of entries stays the same.
    pub proof fn lemma_update_held_key(&self, key: K, v: V)
        requires
            self.wf(),
            self@.contains_key(key),
        ensures
            self.segment().written(key, Some(v)) == self@.insert(key, v),
            self.segment().written(key, Some(v)).len() == self@.len(),
            self.segment().clock_written(key, Some(v)).slots == self.clock().slots,
            self.segment().clock_written(key, Some(v)).touched[self.segment().slot_of(key)],
    {
        self.segment().lemma_count();
    }

    /// Updating a held key with nothing removes it: one entry fewer.
    pub proof fn lemma_remove_held_key(&self, key: K)
        requires
            self.wf(),
            self@.contains_key(key),
        ensures
            self.segment().written(key, None) == self@.remove(key),
            self.segment().written(key, None).len() == self@.len() - 1,
    {
        self.segment().lemma_count();
    }

    /// An update whose function returns nothing leaves the cache as `remove`
    /// leaves it, and returns nothing.
    pub proof fn lemma_update_with_nothing_is_remove<F: Fn(&K, Option<Arc<V>>) -> Option<V>>(
        &self,
        key: K,
        updating_fn: F,
        r: Option<Arc<V>>,
        after: &Self,
    )
        requires
            self.wf(),
            forall|previous: Option<Arc<V>>, v: Option<V>|
                #[trigger] updating_fn.ensures((&key, previous), v) ==> v is None,
            self.updates_to(key, updating_fn, r, after),
        ensures
            r is None,
            self.writes_to(key, None, after),
    {
    }

    /// On a hit, what `get` returns and leaves does not depend on the
    /// populating function: it is never consulted.
    pub proof fn lemma_hit_ignores_populating_fn<F: Fn(&K) -> Option<V>, G: Fn(&K) -> Option<V>>(
        &self,
        key: K,
        f: F,
        g: G,
        r1: Option<Arc<V>>,
        after1: &Self,
        r2: Option<Arc<V>>,
        after2: &Self,
    )
        requires
            self.wf(),
            self@.contains_key(key),
            self.gets_to(key, f, r1, after1),
            self.gets_to(key, g, r2, after2),
        ensures
            unshared(r1) == Some(self@[key]),
            unshared(r1) == unshared(r2),
            after1@ == after2@,
            after1.clock() == after2.clock(),
    {
    }

    /// The number of entries held.
    pub fn len(&self) -> (r: usize)
        requires
            self.wf(),
        ensures
            r == self@.len(),
    {
        self.data.len()
    }
}

} // verus!
