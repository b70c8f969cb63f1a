//! The warm tier of the book cache: strong pins on the most recently loaded
//! books, oldest first, bounded by a capacity. (The identity index beside it
//! holds weak references and lives with the runtime.)

use vstd::prelude::*;

verus! {

/// Default number of books pinned in the warm tier.
pub const DEFAULT_CACHE_CAPACITY: usize = 8;

/// The pins of `s` whose id is not `id`, in order.
pub open spec fn without_id<T>(s: Seq<(u128, T)>, id: u128) -> Seq<(u128, T)>
    decreases s.len(),
{
    if s.len() == 0 {
        Seq::empty()
    } else {
        let rest = without_id(s.drop_last(), id);
        if s.last().0 != id {
            rest.push(s.last())
        } else {
            rest
        }
    }
}

/// The bound on the number of pins: the capacity, but at least one.
pub open spec fn pin_bound(capacity: usize) -> nat {
    if capacity == 0 { 1 } else { capacity as nat }
}

/// Strong pins on recently loaded items, each under its 128-bit id (a book's
/// UUID), oldest first.
pub struct WarmPins<T> {
    pins: Vec<(u128, T)>,
    capacity: usize,
}

impl<T> WarmPins<T> {
    /// The pins, oldest first.
    pub closed spec fn pinned(&self) -> Seq<(u128, T)> {
        self.pins@
    }

    /// The capacity the tier was made with.
    pub closed spec fn capacity_of(&self) -> usize {
        self.capacity
    }

    /// The tier holds no more pins than its bound.
    pub open spec fn wf(&self) -> bool {
        self.pinned().len() <= pin_bound(self.capacity_of())
    }

    /// An empty tier of the given capacity.
    pub fn new(capacity: usize) -> (r: Self)
        ensures
            r.wf(),
            r.pinned() == Seq::<(u128, T)>::empty(),
            r.capacity_of() == capacity,
    {
        WarmPins { pins: Vec::new(), capacity }
    }

    /// Number of pins held.
    pub fn len(&self) -> (r: usize)
        ensures
            r == self.pinned().len(),
    {
        self.pins.len()
    }

    /// Pins `item` under `id` as the newest entry; when the tier is full the
    /// oldest pin is dropped first.
    pub fn insert(&mut self, id: u128, item: T)
        requires
            old(self).wf(),
        ensures
            final(self).wf(),
            final(self).capacity_of() == old(self).capacity_of(),
            final(self).pinned() == (if old(self).pinned().len() >= old(self).capacity_of() && old(self).pinned().len() > 0 {
                old(self).pinned().drop_first()
            } else {
                old(self).pinned()
            }).push((id, item)),
    {
        if self.pins.len() >= self.capacity && self.pins.len() > 0 {
            self.pins.remove(0);
        }
        self.pins.push((id, item));
    }

    /// Drops every pin held under `id`.
    pub fn remove(&mut self, id: u128)
        ensures
            final(self).pinned() == without_id(old(self).pinned(), id),
            final(self).capacity_of() == old(self).capacity_of(),
            old(self).wf() ==> final(self).wf(),
    {
        let ghost orig = self.pins@;
        let ghost cap = self.capacity;
        let mut kept: Vec<(u128, T)> = Vec::new();
        let ghost mut i: int = 0;
        while self.pins.len() > 0
            invariant
                0 <= i <= orig.len(),
                i + self.pins@.len() == orig.len(),
                self.pins@ == orig.skip(i),
                kept@ == without_id(orig.take(i), id),
                kept@.len() <= i,
                self.capacity == cap,
            decreases self.pins@.len(),
        {
            proof {
                assert(orig.skip(i)[0] == orig[i]);
            }
            let p = self.pins.remove(0);
            proof {
                assert(orig.take(i + 1).drop_last() =~= orig.take(i));
                assert(orig.take(i + 1).last() == p);
            }
            if p.0 != id {
                kept.push(p);
            }
            proof {
                assert(orig.skip(i + 1) =~= orig.skip(i).drop_first());
                i = i + 1;
            }
        }
        proof {
            assert(orig.take(i) =~= orig);
        }
        self.pins = kept;
    }

    /// Whether some pin is held under `id`.
    pub fn contains(&self, id: u128) -> (r: bool)
        ensures
            r == (exists|i: int| 0 <= i < self.pinned().len() && (#[trigger] self.pinned()[i]).0 == id),
    {
        let mut i: usize = 0;
        while i < self.pins.len()
            invariant
                i <= self.pins@.len(),
                forall|j: int| 0 <= j < i ==> (#[trigger] self.pins@[j]).0 != id,
            decreases self.pins@.len() - i,
        {
            if self.pins[i].0 == id {
                assert(self.pinned()[i as int].0 == id);
                return true;
            }
            i = i + 1;
        }
        false
    }
}

} // verus!
