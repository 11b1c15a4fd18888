//! Clock (second-chance) eviction over a fixed number of slots.
//!
//! Each slot carries a "touched" bit. When every slot is taken, a hand sweeps
//! the slots in circular order, clearing touched bits, and stops at the first
//! slot that was not touched: that slot is the victim.
use vstd::prelude::*;

verus! {

/// The slot visited at step `k` of a circular scan over `len` slots that
/// starts at `hand` (for `0 <= hand < len` and `0 <= k < len`).
pub open spec fn slot_at(hand: int, k: int, len: int) -> int {
    if hand + k < len {
        hand + k
    } else {
        hand + k - len
    }
}

/// At which step a circular scan starting at `hand` visits slot `i`.
pub open spec fn step_of(hand: int, i: int, len: int) -> int {
    if i >= hand {
        i - hand
    } else {
        i + len - hand
    }
}

/// The first step, from step `k` on, at which a scan starting at `hand` meets
/// an untouched slot; `touched.len()` when it meets none.
pub open spec fn sweep_len(touched: Seq<bool>, hand: int, k: nat) -> nat
    decreases touched.len() - k,
{
    if k >= touched.len() {
        touched.len()
    } else if !touched[slot_at(hand, k as int, touched.len() as int)] {
        k
    } else {
        sweep_len(touched, hand, k + 1)
    }
}

/// The touched bits once a scan from `hand` has passed over its first `d` steps,
/// clearing each slot that it passed.
pub open spec fn swept(touched: Seq<bool>, hand: int, d: nat) -> Seq<bool> {
    Seq::new(
        touched.len(),
        |i: int|
            if step_of(hand, i, touched.len() as int) < d {
                false
            } else {
                touched[i]
            },
    )
}

/// The slot that the clock chooses: the first untouched slot from `hand` on,
/// or the slot at `hand` itself when every slot is touched.
pub open spec fn clock_victim(touched: Seq<bool>, hand: int) -> int {
    let d = sweep_len(touched, hand, 0);
    if d < touched.len() {
        slot_at(hand, d as int, touched.len() as int)
    } else {
        hand
    }
}

/// The lowest slot, from `k` on, that holds no key; `slots.len()` when every
/// one of them holds a key.
pub open spec fn first_free<K>(slots: Seq<Option<K>>, k: nat) -> nat
    decreases slots.len() - k,
{
    if k >= slots.len() {
        slots.len()
    } else if slots[k as int] is None {
        k
    } else {
        first_free(slots, k + 1)
    }
}

/// `first_free` finds a free slot exactly when there is one at or after `k`,
/// and what it finds is free.
pub proof fn lemma_first_free<K>(slots: Seq<Option<K>>, k: nat)
    requires
        k <= slots.len(),
    ensures
        k <= first_free(slots, k) <= slots.len(),
        first_free(slots, k) < slots.len() ==> slots[first_free(slots, k) as int] is None,
        first_free(slots, k) == slots.len() ==> forall|i: int|
            k <= i < slots.len() ==> #[trigger] slots[i] is Some,
    decreases slots.len() - k,
{
    if k < slots.len() && slots[k as int] is Some {
        lemma_first_free(slots, k + 1);
    }
}

/// A scan never goes past the last slot.
proof fn lemma_sweep_len_bounded(touched: Seq<bool>, hand: int, k: nat)
    requires
        k <= touched.len(),
    ensures
        k <= sweep_len(touched, hand, k) <= touched.len(),
    decreases touched.len() - k,
{
    if k < touched.len() && touched[slot_at(hand, k as int, touched.len() as int)] {
        lemma_sweep_len_bounded(touched, hand, k + 1);
    }
}

/// The clock's victim is one of the slots.
pub proof fn lemma_clock_victim_in_range(touched: Seq<bool>, hand: int)
    requires
        0 <= hand < touched.len(),
    ensures
        0 <= clock_victim(touched, hand) < touched.len(),
{
    lemma_sweep_len_bounded(touched, hand, 0);
}

/// The slot after `i`, wrapping around at `len`.
pub open spec fn next_slot(i: int, len: int) -> int {
    if i + 1 < len {
        i + 1
    } else {
        0
    }
}

/// What a clock evictor holds: the hand, a touched bit per slot and the key
/// that each slot currently hosts. The capacity is the number of slots.
pub ghost struct ClockView<K> {
    pub hand: int,
    pub touched: Seq<bool>,
    pub slots: Seq<Option<K>>,
}

impl<K> ClockView<K> {
    pub open spec fn capacity(self) -> nat {
        self.touched.len()
    }

    /// Whether some slot hosts no key.
    pub open spec fn has_free_slot(self) -> bool {
        first_free(self.slots, 0) < self.slots.len()
    }

    /// The slot that the next `add` hands out: the lowest free slot if there
    /// is one, else the clock's victim.
    pub open spec fn add_slot(self) -> int {
        if self.has_free_slot() {
            first_free(self.slots, 0) as int
        } else {
            clock_victim(self.touched, self.hand)
        }
    }

    /// The state after `add(key)`.
    pub open spec fn added(self, key: K) -> ClockView<K> {
        let s = self.add_slot();
        if self.has_free_slot() {
            ClockView {
                hand: self.hand,
                touched: self.touched.update(s, true),
                slots: self.slots.update(s, Some(key)),
            }
        } else {
            let d = sweep_len(self.touched, self.hand, 0);
            ClockView {
                hand: next_slot(s, self.capacity() as int),
                touched: swept(self.touched, self.hand, d).update(s, true),
                slots: self.slots.update(s, Some(key)),
            }
        }
    }

    /// The state after `touch(index)`.
    pub open spec fn touched_at(self, index: int) -> ClockView<K> {
        if 0 <= index < self.capacity() {
            ClockView { touched: self.touched.update(index, true), ..self }
        } else {
            self
        }
    }

    /// The state after `release(index)`.
    pub open spec fn released(self, index: int) -> ClockView<K> {
        if 0 <= index < self.capacity() {
            ClockView {
                touched: self.touched.update(index, false),
                slots: self.slots.update(index, None),
                ..self
            }
        } else {
            self
        }
    }
}

/// Hands out slots to keys and, once every slot is taken, picks the key to
/// evict.
pub trait EvictionStrategy<K>: Sized {
    /// The number of slots.
    spec fn slot_count(&self) -> nat;

    /// The strategy's internal invariant.
    spec fn well_formed(&self) -> bool;

    /// Assigns a slot to `key`, returning the slot and the key that was
    /// evicted from it, if any.
    fn add(&mut self, key: K) -> (r: (usize, Option<K>))
        requires
            old(self).well_formed(),
            old(self).slot_count() > 0,
        ensures
            final(self).well_formed(),
            final(self).slot_count() == old(self).slot_count(),
            r.0 < final(self).slot_count(),
    ;

    /// Records a use of the key hosted at slot `index`.
    fn touch(&mut self, index: usize)
        requires
            old(self).well_formed(),
        ensures
            final(self).well_formed(),
            final(self).slot_count() == old(self).slot_count(),
    ;
}

/// The clock evictor: `capacity` slots, a touched bit for each, a hand, and the
/// key hosted by each slot.
pub struct ClockEvictionStrategy<K> {
    capacity: usize,
    current_pos: usize,
    clock: Vec<bool>,
    mapping: Vec<Option<K>>,
}

impl<K> View for ClockEvictionStrategy<K> {
    type V = ClockView<K>;

    closed spec fn view(&self) -> ClockView<K> {
        ClockView { hand: self.current_pos as int, touched: self.clock@, slots: self.mapping@ }
    }
}

/// The slot at step `k` of a scan from `hand` over `len` slots.
fn slot_index(hand: usize, k: usize, len: usize) -> (r: usize)
    requires
        hand < len,
        k < len,
    ensures
        r == slot_at(hand as int, k as int, len as int),
        r < len,
{
    if k < len - hand {
        hand + k
    } else {
        k - (len - hand)
    }
}

impl<K: Copy> ClockEvictionStrategy<K> {
    /// The strategy's invariant: a touched bit and a hosted key per slot, and
    /// the hand on a slot (at zero when there are none).
    pub closed spec fn wf(&self) -> bool {
        &&& self.clock.len() == self.capacity
        &&& self.mapping.len() == self.capacity
        &&& if self.capacity > 0 {
            self.current_pos < self.capacity
        } else {
            self.current_pos == 0
        }
    }

    /// A well-formed strategy has one slot per unit of capacity and its hand on
    /// one of them.
    pub proof fn lemma_wf_shape(&self)
        requires
            self.wf(),
        ensures
            self@.slots.len() == self@.capacity(),
            self@.capacity() > 0 ==> 0 <= self@.hand < self@.capacity(),
    {
    }

    /// A strategy of `capacity` slots, all free and untouched, with the hand at
    /// the first slot.
    pub fn new(capacity: usize) -> (r: ClockEvictionStrategy<K>)
        ensures
            r.wf(),
            r@.hand == 0,
            r@.touched == Seq::new(capacity as nat, |i: int| false),
            r@.slots == Seq::new(capacity as nat, |i: int| None::<K>),
    {
        let mut clock: Vec<bool> = Vec::with_capacity(capacity);
        let mut mapping: Vec<Option<K>> = Vec::with_capacity(capacity);
        let mut i: usize = 0;
        while i < capacity
            invariant
                i <= capacity,
                clock@ == Seq::new(i as nat, |j: int| false),
                mapping@ == Seq::new(i as nat, |j: int| None::<K>),
            decreases capacity - i,
        {
            clock.push(false);
            mapping.push(None);
            i += 1;
            assert(clock@ =~= Seq::new(i as nat, |j: int| false));
            assert(mapping@ =~= Seq::new(i as nat, |j: int| None::<K>));
        }
        ClockEvictionStrategy { capacity, current_pos: 0, clock, mapping }
    }

    /// The number of slots.
    pub fn capacity(&self) -> (r: usize)
        requires
            self.wf(),
        ensures
            r == self@.capacity(),
    {
        self.capacity
    }

    /// Runs the clock from the hand: clears the touched slots it passes and
    /// stops at the first untouched one, which it returns (the slot at the hand
    /// when all are touched). The hand then moves past the victim.
    fn victim(&mut self) -> (r: usize)
        requires
            old(self).wf(),
            old(self)@.capacity() > 0,
        ensures
            final(self).wf(),
            r as int == clock_victim(old(self)@.touched, old(self)@.hand),
            final(self)@ == (ClockView {
                hand: next_slot(r as int, old(self)@.capacity() as int),
                touched: swept(
                    old(self)@.touched,
                    old(self)@.hand,
                    sweep_len(old(self)@.touched, old(self)@.hand, 0),
                ),
                slots: old(self)@.slots,
            }),
    {
        let ghost t0 = self.clock@;
        let cap = self.capacity;
        let start = self.current_pos;
        let mut off: usize = 0;
        while off < cap && self.clock[slot_index(start, off, cap)]
            invariant
                self.wf(),
                self.capacity == cap,
                self.current_pos == start,
                self.mapping == old(self).mapping,
                t0 == old(self).clock@,
                start < cap,
                off <= cap,
                sweep_len(t0, start as int, 0) == sweep_len(t0, start as int, off as nat),
                self.clock@ == swept(t0, start as int, off as nat),
            decreases cap - off,
        {
            let i = slot_index(start, off, cap);
            assert(t0[i as int]);
            self.clock.set(i, false);
            off += 1;
            assert(self.clock@ =~= swept(t0, start as int, off as nat));
        }
        let victim = if off < cap {
            let i = slot_index(start, off, cap);
            assert(!t0[i as int]);
            i
        } else {
            start
        };
        assert(sweep_len(t0, start as int, off as nat) == off);
        self.current_pos = if victim + 1 < cap {
            victim + 1
        } else {
            0
        };
        victim
    }

    /// Assigns a slot to `key`: the lowest free slot if there is one, with no
    /// eviction; else the clock's victim, whose previous key is returned.
    pub fn add(&mut self, key: K) -> (r: (usize, Option<K>))
        requires
            old(self).wf(),
            old(self)@.capacity() > 0,
        ensures
            final(self).wf(),
            final(self)@ == old(self)@.added(key),
            r.0 as int == old(self)@.add_slot(),
            r.1 == old(self)@.slots[r.0 as int],
            r.0 < old(self)@.capacity(),
    {
        let mut i: usize = 0;
        while i < self.capacity && self.mapping[i].is_some()
            invariant
                self.wf(),
                i <= self.capacity,
                first_free(self.mapping@, 0) == first_free(self.mapping@, i as nat),
            decreases self.capacity - i,
        {
            i += 1;
        }
        assert(first_free(self.mapping@, i as nat) == i);
        let slot = if i < self.capacity {
            i
        } else {
            self.victim()
        };
        let evicted = self.mapping[slot];
        self.mapping.set(slot, Some(key));
        self.clock.set(slot, true);
        (slot, evicted)
    }

    /// Marks slot `index` as touched; an index past the last slot is ignored.
    pub fn touch(&mut self, index: usize)
        requires
            old(self).wf(),
        ensures
            final(self).wf(),
            final(self)@ == old(self)@.touched_at(index as int),
    {
        if index < self.capacity {
            self.clock.set(index, true);
        }
    }

    /// Frees slot `index`, which then hosts no key and is untouched; an index
    /// past the last slot is ignored.
    pub fn release(&mut self, index: usize)
        requires
            old(self).wf(),
        ensures
            final(self).wf(),
            final(self)@ == old(self)@.released(index as int),
    {
        if index < self.capacity {
            self.clock.set(index, false);
            self.mapping.set(index, None);
        }
    }
}

impl<K: Copy> EvictionStrategy<K> for ClockEvictionStrategy<K> {
    closed spec fn slot_count(&self) -> nat {
        self.capacity as nat
    }

    closed spec fn well_formed(&self) -> bool {
        self.wf()
    }

    fn add(&mut self, key: K) -> (r: (usize, Option<K>)) {
        ClockEvictionStrategy::add(self, key)
    }

    fn touch(&mut self, index: usize) {
        ClockEvictionStrategy::touch(self, index)
    }
}

} // verus!
