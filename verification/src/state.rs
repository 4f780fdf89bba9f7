//! The allocator as mathematics: a table of slots, a stack of free slot
//! indices and a count of reservations that wait for a flush.
//!
//! Every operation of the allocator is a function on [`State`]; the executable
//! allocator states its contracts over them.

use crate::entity::{EntityId, EntityLocation};
use vstd::prelude::*;

verus! {

/// What the table keeps for one slot.
#[derive(Clone, Copy, Debug, PartialEq, Eq, Structural)]
pub struct SlotMeta {
    /// Bumped (wrapping) each time the slot is freed.
    pub generation: u32,
    /// `Some` exactly while a live, flushed entity occupies the slot.
    pub location: Option<EntityLocation>,
}

/// The largest number of slots a table can hold. Slot indices are below it.
pub open spec fn max_slots() -> int {
    u32::MAX as int
}

/// The slot that the reservation with the given ordinal gets: ordinals below
/// `free_len` walk the free list from its top downwards, later ones take the
/// indices that follow the end of the table.
pub open spec fn spec_derive_slot(ordinal: int, free_len: int, free: Seq<u32>, table_len: int) -> int {
    if ordinal < free_len {
        free[free_len - 1 - ordinal] as int
    } else {
        table_len + (ordinal - free_len)
    }
}

/// The generation after one more free of a slot: one up, and from the largest
/// value back to zero.
pub open spec fn next_generation(generation: u32) -> u32 {
    if generation == u32::MAX {
        0
    } else {
        (generation + 1) as u32
    }
}

/// The number of slots that hold a location.
pub open spec fn live_count(meta: Seq<SlotMeta>) -> nat
    decreases meta.len(),
{
    if meta.len() == 0 {
        0
    } else {
        live_count(meta.drop_last()) + if meta.last().location is Some {
            1nat
        } else {
            0nat
        }
    }
}

/// The number of entries that are a location.
pub open spec fn count_some(locs: Seq<Option<EntityLocation>>) -> nat
    decreases locs.len(),
{
    if locs.len() == 0 {
        0
    } else {
        count_some(locs.drop_last()) + if locs.last() is Some {
            1nat
        } else {
            0nat
        }
    }
}

/// The state of an allocator.
pub struct State {
    /// The table, indexed by slot.
    pub meta: Seq<SlotMeta>,
    /// The free list; its last entry is the top of the stack.
    pub free: Seq<u32>,
    /// How many reservations were handed out since the last flush.
    pub reserved: nat,
}

impl State {
    /// The state of a fresh allocator.
    pub open spec fn empty() -> State {
        State { meta: Seq::empty(), free: Seq::empty(), reserved: 0 }
    }

    /// How many reservations a flushed state can hand out before the index
    /// space is used up.
    pub open spec fn capacity(self) -> int {
        self.free.len() + (max_slots() - self.meta.len())
    }

    /// The invariant of every reachable state: the table fits the index
    /// space; the free list names each slot at most once, and only slots of
    /// the table that hold no location; free slots and live slots together are
    /// no more than the table has; and the reservations fit what is left.
    pub open spec fn wf(self) -> bool {
        &&& self.meta.len() <= max_slots()
        &&& self.free.no_duplicates()
        &&& forall|j: int|
            0 <= j < self.free.len() ==> (#[trigger] self.free[j]) < self.meta.len()
                && self.meta[self.free[j] as int].location is None
        &&& self.free.len() + live_count(self.meta) <= self.meta.len()
        &&& self.reserved <= self.capacity()
    }

    /// Whether reservations wait for a flush.
    pub open spec fn needs_flush(self) -> bool {
        self.reserved > 0
    }

    /// The slot of the reservation with ordinal `k`, counted from the last flush.
    pub open spec fn slot_at(self, k: int) -> int {
        spec_derive_slot(k, self.free.len() as int, self.free, self.meta.len() as int)
    }

    /// The identity of the reservation with ordinal `k`: a recycled slot keeps
    /// its current generation, a new one starts at zero.
    pub open spec fn entity_at(self, k: int) -> EntityId {
        EntityId {
            index: self.slot_at(k) as u32,
            generation: if k < self.free.len() {
                self.meta[self.slot_at(k)].generation
            } else {
                0
            },
        }
    }

    /// The identities of the `count` ordinals from `first` on, in order.
    pub open spec fn entities_from(self, first: int, count: nat) -> Seq<EntityId> {
        Seq::new(count, |j: int| self.entity_at(first + j))
    }

    /// The location that a lookup of `e` finds: that of its slot, if the slot
    /// exists and still has the generation of `e`.
    pub open spec fn location_of(self, e: EntityId) -> Option<EntityLocation> {
        if e.index < self.meta.len() && self.meta[e.index as int].generation == e.generation {
            self.meta[e.index as int].location
        } else {
            None
        }
    }

    /// Whether `e` is live: flushed with a location and not freed since.
    pub open spec fn is_live(self, e: EntityId) -> bool {
        self.location_of(e) is Some
    }

    /// The number of live entities.
    pub open spec fn live(self) -> nat {
        live_count(self.meta)
    }

    /// The identity that an exclusive allocation hands out.
    pub open spec fn allocated(self) -> EntityId {
        self.entity_at(0)
    }

    /// The state after an exclusive allocation: the top of the free list is
    /// gone, or, with no free slot, the table has one more slot.
    pub open spec fn after_alloc(self) -> State {
        if self.free.len() > 0 {
            State { free: self.free.drop_last(), ..self }
        } else {
            State { meta: self.meta.push(SlotMeta { generation: 0, location: None }), ..self }
        }
    }

    /// The state after `n` exclusive allocations in a row.
    pub open spec fn after_allocs(self, n: nat) -> State
        decreases n,
    {
        if n == 0 {
            self
        } else {
            self.after_allocs((n - 1) as nat).after_alloc()
        }
    }

    /// The state after `count` more reservations.
    pub open spec fn after_reserve(self, count: nat) -> State {
        State { reserved: self.reserved + count, ..self }
    }

    /// The state after a successful free of `e`.
    pub open spec fn after_free(self, e: EntityId) -> State {
        State {
            meta: self.meta.update(
                e.index as int,
                SlotMeta { generation: next_generation(e.generation), location: None },
            ),
            free: self.free.push(e.index),
            ..self
        }
    }

    /// The state after an attempt to free `e`: that of a successful free where
    /// `e` is live, the same state where it is not.
    pub open spec fn free_outcome(self, e: EntityId) -> State {
        if self.is_live(e) {
            self.after_free(e)
        } else {
            self
        }
    }

    /// The table after the reservations with ordinals below `locs.len()` got
    /// the resolutions in `locs`, one after the other.
    pub open spec fn materialized(self, locs: Seq<Option<EntityLocation>>) -> Seq<SlotMeta>
        decreases locs.len(),
    {
        if locs.len() == 0 {
            self.meta
        } else {
            let before = self.materialized(locs.drop_last());
            let k = locs.len() - 1;
            if k < self.free.len() {
                before.update(
                    self.slot_at(k),
                    SlotMeta { generation: self.entity_at(k).generation, location: locs.last() },
                )
            } else {
                before.push(SlotMeta { generation: 0, location: locs.last() })
            }
        }
    }

    /// The free list after the first `count` reservations are flushed.
    pub open spec fn free_after_flush(self, count: nat) -> Seq<u32> {
        if count < self.free.len() {
            self.free.take(self.free.len() - count)
        } else {
            Seq::empty()
        }
    }

    /// The state after a flush in which the reservation with ordinal `k` got
    /// the resolution `locs[k]`.
    pub open spec fn flushed(self, locs: Seq<Option<EntityLocation>>) -> State {
        State {
            meta: self.materialized(locs),
            free: self.free_after_flush(locs.len()),
            reserved: 0,
        }
    }

    /// The state after a flush that marks every reservation invalid.
    pub open spec fn flushed_as_invalid(self) -> State {
        self.flushed(Seq::new(self.reserved, |k: int| None))
    }

    /// The resolutions that a flush from `self` to `after` must have used.
    pub open spec fn resolutions(self, after: State) -> Seq<Option<EntityLocation>> {
        Seq::new(self.reserved, |k: int| after.meta[self.slot_at(k)].location)
    }
}

} // verus!
