use vstd::prelude::*;

use crate::handle::{Generation, Index, INDEX_LIMIT};

verus! {

/// One slab slot: either occupied by an item, or free and carrying the link
/// to the next free slot.
pub enum Slot<T> {
    Item { item: T },
    Free { next: Option<usize> },
}

/// A slab entry: the slot together with the generation that handles pointing
/// at this slot must carry.
pub struct Entry<T> {
    pub generation: Generation,
    pub slot: Slot<T>,
}

/// Per-kind generational slab. Allocation prefers the free list and
/// otherwise appends; every lookup checks the handle's generation against
/// the entry's, so a stale handle never aliases a new occupant.
///
/// The const parameter `S` is the kind bit encoded into every handle this
/// slab hands out: `true` for the socket slab, `false` for the dpoll slab.
pub struct Buffer<const S: bool, T> {
    pub items: Vec<Entry<T>>,
    pub next_free: Option<usize>,
}

impl<const S: bool, T> Buffer<S, T> {
    /// Whether slot `i` is free.
    pub open spec fn slot_free(self, i: int) -> bool {
        self.items[i].slot is Free
    }

    /// The free-list link stored in slot `i` (meaningful only when free).
    pub open spec fn target_of(self, i: int) -> Option<usize> {
        match self.items[i].slot {
            Slot::Free { next } => next,
            Slot::Item { .. } => Option::None,
        }
    }

    /// A free-list link is valid when it points inside the slab at a free
    /// slot.
    pub open spec fn valid_link(self, target: Option<usize>) -> bool {
        match target {
            Option::Some(j) => j < self.items.len() && self.items[j as int].slot is Free,
            Option::None => true,
        }
    }

    /// Well-formedness: the free list is a chain of free slots in bounds, no
    /// two free slots share a successor, and nothing links back to the head.
    pub open spec fn wf(self) -> bool {
        &&& self.items.len() <= INDEX_LIMIT
        &&& self.valid_link(self.next_free)
        &&& forall|i: int|
            0 <= i < self.items.len() && self.slot_free(i) ==> self.valid_link(
                #[trigger] self.target_of(i),
            )
        &&& forall|i: int, k: int|
            0 <= i < self.items.len() && 0 <= k < self.items.len() && i != k && self.slot_free(i)
                && self.slot_free(k) && #[trigger] self.target_of(i) is Some ==> self.target_of(i)
                != #[trigger] self.target_of(k)
        &&& forall|i: int|
            0 <= i < self.items.len() && self.slot_free(i) && self.next_free is Some
                ==> #[trigger] self.target_of(i) != self.next_free
    }

    /// The item a handle refers to: defined exactly when the handle carries
    /// the dpoll bit, names this slab's kind, points inside the slab, and its
    /// generation matches the entry's.
    pub open spec fn spec_get(self, idx: Index) -> Option<T> {
        if idx.spec_is_dpoll() && idx.spec_is_socket() == S && (idx.spec_index() as int)
            < self.items.len() && self.items[idx.spec_index() as int].generation
            == idx.spec_generation() {
            match self.items[idx.spec_index() as int].slot {
                Slot::Item { item } => Option::Some(item),
                Slot::Free { .. } => Option::None,
            }
        } else {
            Option::None
        }
    }

    pub fn new() -> (r: Buffer<S, T>)
        ensures
            r.wf(),
            r.items.len() == 0,
            r.next_free is None,
    {
        Buffer { items: Vec::new(), next_free: None }
    }

    pub fn new_with_cap(cap: usize) -> (r: Buffer<S, T>)
        ensures
            r.wf(),
            r.items.len() == 0,
            r.next_free is None,
    {
        Buffer { items: Vec::with_capacity(cap), next_free: None }
    }

    /// Stores `item` in a free slot (or a fresh one) and returns its handle.
    /// The handle always decodes to this slab's kind, with the dpoll bit
    /// set, a valid slot index, and the generation recorded in that slot.
    pub fn allocate(&mut self, item: T) -> (idx: Index)
        requires
            old(self).wf(),
            old(self).items.len() < INDEX_LIMIT,
        ensures
            final(self).wf(),
            idx.spec_is_dpoll(),
            idx.spec_sign_clear(),
            idx.spec_is_socket() == S,
            (idx.spec_index() as int) < final(self).items.len(),
            final(self).items[idx.spec_index() as int].generation == idx.spec_generation(),
            final(self).items[idx.spec_index() as int].slot == (Slot::Item { item }),
            final(self).spec_get(idx) == Option::Some(item),
            forall|i: int|
                0 <= i < old(self).items.len() && i != idx.spec_index() ==> #[trigger] final(self).items[i]
                    == old(self).items[i],
            match old(self).next_free {
                Option::Some(h) => idx.spec_index() == h && final(self).items.len()
                    == old(self).items.len() && idx.spec_generation() == old(
                    self,
                ).items[h as int].generation && final(self).next_free == old(self).target_of(h as int),
                Option::None => idx.spec_index() == old(self).items.len() && final(self).items.len()
                    == old(self).items.len() + 1 && idx.spec_generation() == (Generation {
                    value: 0,
                }) && final(self).next_free is None,
            },
    {
        match self.next_free {
            Some(i) => {
                let next = match &self.items[i].slot {
                    Slot::Free { next } => *next,
                    Slot::Item { .. } => vstd::pervasive::unreached(),
                };
                self.next_free = next;
                let g = self.items[i].generation;
                let r = &mut self.items[i];
                *r = Entry { generation: g, slot: Slot::Item { item } };
                proof {
                    lemma_wf_alloc_reuse(*old(self), *self, i as int);
                }
                Index::from_parts(i as u32, g, S)
            },
            None => {
                let n = self.items.len();
                self.items.push(Entry { generation: Generation::zero(), slot: Slot::Item { item } });
                proof {
                    lemma_wf_push_item(*old(self), *self);
                }
                Index::from_parts(n as u32, Generation::zero(), S)
            },
        }
    }

    /// Removes and returns the occupant of a valid handle's slot, advancing
    /// the slot's generation exactly as `free` does (so a reused index
    /// never yields the same handle again), and puts the slot at the head
    /// of the free list.
    pub fn take(&mut self, idx: Index) -> (item: T)
        requires
            old(self).wf(),
            idx.spec_is_dpoll(),
            idx.spec_is_socket() == S,
            (idx.spec_index() as int) < old(self).items.len(),
            old(self).items[idx.spec_index() as int].generation == idx.spec_generation(),
            !old(self).slot_free(idx.spec_index() as int),
        ensures
            final(self).wf(),
            old(self).items[idx.spec_index() as int].slot == (Slot::Item { item }),
            final(self).items.len() == old(self).items.len(),
            final(self).items[idx.spec_index() as int].generation.value == (
            if idx.spec_generation().value == 255 {
                0int
            } else {
                idx.spec_generation().value + 1
            }),
            final(self).items[idx.spec_index() as int].generation.value
                != idx.spec_generation().value,
            final(self).items[idx.spec_index() as int].slot == (Slot::Free::<T> {
                next: old(self).next_free,
            }),
            final(self).next_free == Option::Some(idx.spec_index() as usize),
            forall|i: int|
                0 <= i < final(self).items.len() && i != idx.spec_index() ==> #[trigger] final(self).items[i]
                    == old(self).items[i],
            final(self).spec_get(idx) is None,
    {
        let i = idx.index() as usize;
        let g = self.items[i].generation;
        let old_head = self.next_free;
        let mut entry = Entry { generation: g.next(), slot: Slot::Free { next: old_head } };
        core::mem::swap(&mut entry, &mut self.items[i]);
        self.next_free = Some(i);
        proof {
            lemma_wf_free_slot(*old(self), *self, i as int);
        }
        match entry.slot {
            Slot::Item { item } => item,
            Slot::Free { .. } => vstd::pervasive::unreached(),
        }
    }

    /// Frees a valid handle's slot, advancing its generation so that the
    /// freed handle (and every older one) can never match this slot again.
    pub fn free(&mut self, idx: Index)
        requires
            old(self).wf(),
            idx.spec_is_dpoll(),
            idx.spec_is_socket() == S,
            (idx.spec_index() as int) < old(self).items.len(),
            old(self).items[idx.spec_index() as int].generation == idx.spec_generation(),
            !old(self).slot_free(idx.spec_index() as int),
        ensures
            final(self).wf(),
            final(self).items.len() == old(self).items.len(),
            final(self).items[idx.spec_index() as int].generation.value == (
            if idx.spec_generation().value == 255 {
                0int
            } else {
                idx.spec_generation().value + 1
            }),
            final(self).items[idx.spec_index() as int].generation.value != idx.spec_generation().value,
            final(self).items[idx.spec_index() as int].slot == (Slot::Free::<T> {
                next: old(self).next_free,
            }),
            final(self).next_free == Option::Some(idx.spec_index() as usize),
            forall|i: int|
                0 <= i < final(self).items.len() && i != idx.spec_index() ==> #[trigger] final(self).items[i]
                    == old(self).items[i],
            final(self).spec_get(idx) is None,
    {
        let i = idx.index() as usize;
        let g = self.items[i].generation;
        let old_head = self.next_free;
        let r = &mut self.items[i];
        *r = Entry { generation: g.next(), slot: Slot::Free { next: old_head } };
        self.next_free = Some(i);
        proof {
            lemma_wf_free_slot(*old(self), *self, i as int);
        }
    }

    /// Looks a handle up without touching the slab. Returns the occupant
    /// exactly when the handle is of this slab's kind, in bounds, its
    /// generation matches, and the slot is occupied; `None` otherwise, so a
    /// freed or foreign handle reports "no such item" rather than aliasing.
    pub fn get(&self, idx: Index) -> (r: Option<&T>)
        ensures
            match r {
                Option::Some(t) => self.spec_get(idx) == Option::Some(*t),
                Option::None => self.spec_get(idx) is None,
            },
    {
        if !idx.is_dpoll() || idx.is_socket() != S {
            return None;
        }
        let i = idx.index() as usize;
        if i >= self.items.len() {
            return None;
        }
        if self.items[i].generation.into_bits() != idx.generation().into_bits() {
            return None;
        }
        match &self.items[i].slot {
            Slot::Item { item } => Some(item),
            Slot::Free { .. } => None,
        }
    }

    /// Whether `get` would find an item for this handle.
    pub fn contains(&self, idx: Index) -> (r: bool)
        ensures
            r == (self.spec_get(idx) is Some),
    {
        self.get(idx).is_some()
    }

    /// Mutable access to the occupant of a valid handle's slot. The slab
    /// afterwards holds whatever the caller leaves behind the reference; the
    /// rest of the slab is untouched.
    pub fn get_mut(&mut self, idx: Index) -> (r: &mut T)
        requires
            old(self).wf(),
            old(self).spec_get(idx) is Some,
        ensures
            old(self).spec_get(idx) == Option::Some(*r),
            final(self).items@ == old(self).items@.update(
                idx.spec_index() as int,
                Entry { generation: idx.spec_generation(), slot: Slot::Item { item: *final(r) } },
            ),
            final(self).next_free == old(self).next_free,
            final(self).items.len() == old(self).items.len(),
    {
        let i = idx.index() as usize;
        match &mut self.items[i].slot {
            Slot::Item { item } => item,
            Slot::Free { .. } => vstd::pervasive::unreached(),
        }
    }

    pub fn len(&self) -> (r: usize)
        ensures
            r == self.items.len(),
    {
        self.items.len()
    }
}

/// Use-after-free safety of the slab: once a handle's slot has been freed,
/// the freed handle looks up to "no such item", and any later allocation
/// that reuses the same slot hands out a handle with the same index but a
/// different generation, so the old handle keeps failing lookup.
pub proof fn lemma_no_stale_alias<const S: bool, T>(freed: Buffer<S, T>, h: Index, h2: Index)
    requires
        // the slab right after `free(h)`, as `free` ensures it:
        freed.spec_get(h) is None,
        freed.next_free == Option::Some(h.spec_index() as usize),
        freed.items[h.spec_index() as int].generation.value != h.spec_generation().value,
        // the handle a subsequent `allocate` returns when it pops that slot,
        // as `allocate` ensures it:
        h2.spec_index() == h.spec_index(),
        h2.spec_generation() == freed.items[h.spec_index() as int].generation,
    ensures
        h2.spec_generation() != h.spec_generation(),
{
}

/// The free structure of `o` survives replacing occupied slot `i` by
/// another occupied slot; used by callers of `get_mut` to restore
/// well-formedness of the slab once the borrow has ended.
pub proof fn lemma_wf_item_update<const S: bool, T>(o: Buffer<S, T>, s: Buffer<S, T>, i: int)
    requires
        o.wf(),
        0 <= i < o.items.len(),
        !o.slot_free(i),
        s.items.len() == o.items.len(),
        !s.slot_free(i),
        forall|k: int| 0 <= k < s.items.len() && k != i ==> #[trigger] s.items[k] == o.items[k],
        s.next_free == o.next_free,
    ensures
        s.wf(),
{
    assert forall|k: int| 0 <= k < s.items.len() && s.slot_free(k) implies s.valid_link(
        #[trigger] s.target_of(k),
    ) by {
        assert(k != i);
        assert(o.slot_free(k));
        assert(o.valid_link(o.target_of(k)));
        match o.target_of(k) {
            Option::Some(m) => {
                assert(o.slot_free(m as int));
                assert(m != i);
            },
            Option::None => {},
        }
    }
    assert forall|a: int, b: int|
        0 <= a < s.items.len() && 0 <= b < s.items.len() && a != b && s.slot_free(a)
            && s.slot_free(b) && #[trigger] s.target_of(a) is Some implies s.target_of(a)
        != #[trigger] s.target_of(b) by {
        assert(a != i && b != i);
        assert(o.target_of(a) is Some);
        assert(o.target_of(a) != o.target_of(b));
    }
    assert forall|k: int|
        0 <= k < s.items.len() && s.slot_free(k) && s.next_free is Some implies #[trigger] s.target_of(k)
        != s.next_free by {
        assert(k != i);
        assert(o.target_of(k) != o.next_free);
    }
    match s.next_free {
        Option::Some(m) => {
            assert(o.slot_free(m as int));
            assert(m != i);
        },
        Option::None => {},
    }
}

/// The free structure of `o` survives popping the head of the free list and
/// occupying it.
proof fn lemma_wf_alloc_reuse<const S: bool, T>(o: Buffer<S, T>, s: Buffer<S, T>, i: int)
    requires
        o.wf(),
        o.next_free == Option::Some(i as usize),
        0 <= i < o.items.len(),
        s.items.len() == o.items.len(),
        !s.slot_free(i),
        forall|k: int| 0 <= k < s.items.len() && k != i ==> #[trigger] s.items[k] == o.items[k],
        s.next_free == o.target_of(i),
    ensures
        s.wf(),
{
    assert(o.slot_free(i));
    assert(o.valid_link(o.target_of(i)));
    assert(o.target_of(i) != o.next_free);
    assert forall|k: int| 0 <= k < s.items.len() && s.slot_free(k) implies s.valid_link(
        #[trigger] s.target_of(k),
    ) by {
        assert(k != i);
        assert(o.slot_free(k));
        assert(o.valid_link(o.target_of(k)));
        assert(o.target_of(k) != o.next_free);
        match o.target_of(k) {
            Option::Some(m) => {
                assert(o.slot_free(m as int));
                assert(m != i);
            },
            Option::None => {},
        }
    }
    assert forall|a: int, b: int|
        0 <= a < s.items.len() && 0 <= b < s.items.len() && a != b && s.slot_free(a)
            && s.slot_free(b) && #[trigger] s.target_of(a) is Some implies s.target_of(a)
        != #[trigger] s.target_of(b) by {
        assert(a != i && b != i);
        assert(o.target_of(a) is Some);
        assert(o.target_of(a) != o.target_of(b));
    }
    assert forall|k: int|
        0 <= k < s.items.len() && s.slot_free(k) && s.next_free is Some implies #[trigger] s.target_of(k)
        != s.next_free by {
        assert(k != i);
        assert(o.target_of(k) is Some ==> o.target_of(k) != o.target_of(i));
    }
    match s.next_free {
        Option::Some(m) => {
            assert(o.slot_free(m as int));
            assert(o.target_of(i) != o.next_free);
            assert(m != i);
        },
        Option::None => {},
    }
}

/// The free structure of `o` survives freeing occupied slot `i` and making
/// it the new head of the free list.
proof fn lemma_wf_free_slot<const S: bool, T>(o: Buffer<S, T>, s: Buffer<S, T>, i: int)
    requires
        o.wf(),
        0 <= i < o.items.len(),
        !o.slot_free(i),
        s.items.len() == o.items.len(),
        s.items[i].slot == (Slot::Free::<T> { next: o.next_free }),
        forall|k: int| 0 <= k < s.items.len() && k != i ==> #[trigger] s.items[k] == o.items[k],
        s.next_free == Option::Some(i as usize),
    ensures
        s.wf(),
{
    match o.next_free {
        Option::Some(h) => {
            assert(o.slot_free(h as int));
            assert(h != i);
        },
        Option::None => {},
    }
    assert forall|k: int| 0 <= k < s.items.len() && s.slot_free(k) implies s.valid_link(
        #[trigger] s.target_of(k),
    ) by {
        if k == i {
            match o.next_free {
                Option::Some(h) => {
                    assert(o.slot_free(h as int));
                    assert(h != i);
                },
                Option::None => {},
            }
        } else {
            assert(o.slot_free(k));
            assert(o.valid_link(o.target_of(k)));
            match o.target_of(k) {
                Option::Some(m) => {
                    assert(o.slot_free(m as int));
                    assert(m != i);
                },
                Option::None => {},
            }
        }
    }
    assert forall|a: int, b: int|
        0 <= a < s.items.len() && 0 <= b < s.items.len() && a != b && s.slot_free(a)
            && s.slot_free(b) && #[trigger] s.target_of(a) is Some implies s.target_of(a)
        != #[trigger] s.target_of(b) by {
        if a == i {
            assert(s.target_of(a) == o.next_free);
            assert(o.slot_free(b));
            assert(o.target_of(b) != o.next_free);
        } else if b == i {
            assert(s.target_of(b) == o.next_free);
            assert(o.slot_free(a));
            assert(o.target_of(a) != o.next_free);
        } else {
            assert(o.target_of(a) is Some);
            assert(o.target_of(a) != o.target_of(b));
        }
    }
    assert forall|k: int|
        0 <= k < s.items.len() && s.slot_free(k) && s.next_free is Some implies #[trigger] s.target_of(k)
        != s.next_free by {
        if k == i {
            match o.next_free {
                Option::Some(h) => {
                    assert(o.slot_free(h as int));
                    assert(h != i);
                },
                Option::None => {},
            }
        } else {
            assert(o.slot_free(k));
            match o.target_of(k) {
                Option::Some(m) => {
                    assert(o.slot_free(m as int));
                    assert(m != i);
                },
                Option::None => {},
            }
        }
    }
}

/// The free structure of `o` survives appending an occupied slot.
proof fn lemma_wf_push_item<const S: bool, T>(o: Buffer<S, T>, s: Buffer<S, T>)
    requires
        o.wf(),
        o.items.len() < INDEX_LIMIT,
        s.items.len() == o.items.len() + 1,
        !s.slot_free(o.items.len() as int),
        forall|k: int| 0 <= k < o.items.len() ==> #[trigger] s.items[k] == o.items[k],
        s.next_free == o.next_free,
    ensures
        s.wf(),
{
    let n = o.items.len() as int;
    assert forall|k: int| 0 <= k < s.items.len() && s.slot_free(k) implies s.valid_link(
        #[trigger] s.target_of(k),
    ) by {
        assert(k != n);
        assert(o.slot_free(k));
        assert(o.valid_link(o.target_of(k)));
        match o.target_of(k) {
            Option::Some(m) => {
                assert(o.slot_free(m as int));
                assert(m < n);
            },
            Option::None => {},
        }
    }
    assert forall|a: int, b: int|
        0 <= a < s.items.len() && 0 <= b < s.items.len() && a != b && s.slot_free(a)
            && s.slot_free(b) && #[trigger] s.target_of(a) is Some implies s.target_of(a)
        != #[trigger] s.target_of(b) by {
        assert(a != n && b != n);
        assert(o.target_of(a) is Some);
        assert(o.target_of(a) != o.target_of(b));
    }
    assert forall|k: int|
        0 <= k < s.items.len() && s.slot_free(k) && s.next_free is Some implies #[trigger] s.target_of(k)
        != s.next_free by {
        assert(k != n);
        assert(o.target_of(k) != o.next_free);
    }
    match s.next_free {
        Option::Some(m) => {
            assert(o.slot_free(m as int));
            assert(m < n);
        },
        Option::None => {},
    }
}

} // verus!
