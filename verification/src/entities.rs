//! The allocator: hands out identities, takes them back, and reconciles
//! reservations with the table.

use crate::entity::{ids, Entity, EntityLocation};
use crate::lemmas::{
    lemma_count_some_bound, lemma_flushed_wf, lemma_live_count_bound, lemma_live_count_push,
    lemma_live_count_update, lemma_materialized, lemma_materialized_live, lemma_slot_at_distinct,
};
use crate::slot::derive_slot;
use crate::state::{count_some, SlotMeta, State};
use vstd::prelude::*;

verus! {

/// Returned where an identity no longer names a live entity: its slot was
/// never made, has moved on to another generation, or holds no location.
#[derive(Clone, Copy, Debug, PartialEq, Eq, Structural)]
pub struct StaleEntityError;

/// The entity allocator.
pub struct Entities {
    meta: Vec<SlotMeta>,
    free: Vec<u32>,
    reserved: u32,
    live: u32,
}

impl View for Entities {
    type V = State;

    closed spec fn view(&self) -> State {
        State { meta: self.meta@, free: self.free@, reserved: self.reserved as nat }
    }
}

impl Entities {
    /// What holds of every allocator between two calls.
    pub closed spec fn wf(&self) -> bool {
        &&& self@.wf()
        &&& self.live == self@.live()
    }

    /// The state of a well-formed allocator satisfies the invariant of states.
    pub proof fn state_is_wf(&self)
        requires
            self.wf(),
        ensures
            self@.wf(),
    {
    }

    /// A fresh allocator: no slot, nothing free, nothing reserved.
    pub fn new() -> (entities: Entities)
        ensures
            entities.wf(),
            entities@ == State::empty(),
    {
        Entities { meta: Vec::new(), free: Vec::new(), reserved: 0, live: 0 }
    }

    /// Allocates an identity at once, from the top of the free list or, with
    /// no free slot, from a new slot at the end of the table.
    pub fn allocate(&mut self) -> (entity: Entity)
        requires
            old(self).wf(),
            !old(self)@.needs_flush(),
            old(self)@.capacity() > 0,
        ensures
            final(self).wf(),
            entity@ == old(self)@.allocated(),
            final(self)@ == old(self)@.after_alloc(),
    {
        match self.free.pop() {
            Some(index) => {
                let generation = self.meta[index as usize].generation;
                proof {
                    assert(old(self)@.free.drop_last() =~= self.free@);
                }
                Entity::new(index, generation)
            },
            None => {
                let index = self.meta.len() as u32;
                self.meta.push(SlotMeta { generation: 0, location: None });
                proof {
                    lemma_live_count_push(old(self)@.meta, SlotMeta { generation: 0, location: None });
                }
                Entity::new(index, 0)
            },
        }
    }

    /// Takes a live entity back: its slot moves on to the next generation,
    /// loses its location and goes on top of the free list. Any other identity
    /// is refused and nothing changes.
    pub fn free(&mut self, entity: Entity) -> (result: Result<EntityLocation, StaleEntityError>)
        requires
            old(self).wf(),
            !old(self)@.needs_flush(),
        ensures
            final(self).wf(),
            match result {
                Ok(location) => old(self)@.location_of(entity@) == Some(location) && final(self)@
                    == old(self)@.after_free(entity@),
                Err(_) => old(self)@.location_of(entity@) is None && final(self)@ == old(self)@,
            },
    {
        let index = entity.index();
        if index as usize >= self.meta.len() {
            return Err(StaleEntityError);
        }
        let slot = self.meta[index as usize];
        if slot.generation != entity.generation() {
            return Err(StaleEntityError);
        }
        match slot.location {
            None => Err(StaleEntityError),
            Some(location) => {
                let generation = slot.generation.wrapping_add(1);
                proof {
                    lemma_live_count_update(
                        self.meta@,
                        index as int,
                        SlotMeta { generation, location: None },
                    );
                    lemma_live_count_bound(self.meta@);
                }
                self.meta[index as usize] = SlotMeta { generation, location: None };
                self.free.push(index);
                self.live = self.live - 1;
                Ok(location)
            },
        }
    }

    /// The location of `entity`, if it is live.
    pub fn get_location(&self, entity: Entity) -> (location: Option<EntityLocation>)
        requires
            self.wf(),
        ensures
            location == self@.location_of(entity@),
    {
        let index = entity.index();
        if index as usize >= self.meta.len() {
            return None;
        }
        let slot = self.meta[index as usize];
        if slot.generation != entity.generation() {
            return None;
        }
        slot.location
    }

    /// Whether `entity` is live.
    pub fn contains(&self, entity: Entity) -> (live: bool)
        requires
            self.wf(),
        ensures
            live == self@.is_live(entity@),
    {
        self.get_location(entity).is_some()
    }

    /// The number of live entities.
    pub fn len(&self) -> (n: u32)
        requires
            self.wf(),
        ensures
            n == self@.live(),
    {
        self.live
    }

    /// Whether no entity is live.
    pub fn is_empty(&self) -> (empty: bool)
        requires
            self.wf(),
        ensures
            empty == (self@.live() == 0),
    {
        self.live == 0
    }

    /// Whether reservations wait for a flush.
    pub fn needs_flush(&self) -> (pending: bool)
        requires
            self.wf(),
        ensures
            pending == self@.needs_flush(),
    {
        self.reserved > 0
    }

    /// Whether `count` more reservations fit the index space.
    pub fn can_reserve(&self, count: u32) -> (fits: bool)
        requires
            self.wf(),
        ensures
            fits == (self@.reserved + count <= self@.capacity()),
    {
        proof {
            lemma_live_count_bound(self.meta@);
        }
        let room = self.free.len() as u64 + (u32::MAX as u64 - self.meta.len() as u64);
        self.reserved as u64 + count as u64 <= room
    }

    /// The identity of the reservation with the given ordinal, counted from
    /// the last flush. It depends on the table and the free list alone, which
    /// no reservation changes.
    pub fn reserved_entity(&self, ordinal: u32) -> (entity: Entity)
        requires
            self.wf(),
            ordinal < self@.capacity(),
        ensures
            entity@ == self@.entity_at(ordinal as int),
    {
        let free_len = self.free.len();
        let index = derive_slot(ordinal, free_len, &self.free, self.meta.len());
        if (ordinal as usize) < free_len {
            Entity::new(index, self.meta[index as usize].generation)
        } else {
            Entity::new(index, 0)
        }
    }

    /// How many more reservations fit the index space.
    pub fn room(&self) -> (room: u32)
        requires
            self.wf(),
        ensures
            room == self@.capacity() - self@.reserved,
    {
        proof {
            lemma_live_count_bound(self.meta@);
        }
        let capacity = self.free.len() as u64 + (u32::MAX as u64 - self.meta.len() as u64);
        (capacity - self.reserved as u64) as u32
    }

    /// How many reservations the allocator has to take over where `taken`
    /// tickets were given away through a window: all of them, as far as the
    /// index space reaches.
    pub fn claimed(&self, taken: u64) -> (count: u32)
        requires
            self.wf(),
        ensures
            count == if taken < self@.capacity() - self@.reserved {
                taken as int
            } else {
                self@.capacity() - self@.reserved
            },
    {
        let room = self.room();
        if taken < room as u64 {
            taken as u32
        } else {
            room
        }
    }

    /// The identity that a shared reservation gets for the ticket it drew:
    /// that of the ordinal `ticket` places after the reservations already
    /// counted, or `None` where that ordinal is beyond the index space.
    pub fn reservation(&self, ticket: u64) -> (entity: Option<Entity>)
        requires
            self.wf(),
        ensures
            entity is Some <==> self@.reserved + ticket < self@.capacity(),
            entity matches Some(e) ==> e@ == self@.entity_at(self@.reserved + ticket),
    {
        if ticket < self.room() as u64 {
            Some(self.reserved_entity(self.reserved + ticket as u32))
        } else {
            None
        }
    }

    /// The identities that a shared reservation of `count` gets for the first
    /// ticket it drew: those of `count` ordinals in a row, or `None` where one
    /// of them is beyond the index space.
    pub fn reservations(&self, first: u64, count: u32) -> (entities: Option<Vec<Entity>>)
        requires
            self.wf(),
        ensures
            entities is Some <==> self@.reserved + first + count <= self@.capacity(),
            entities matches Some(v) ==> v@.len() == count && ids(v@) == self@.entities_from(
                self@.reserved + first,
                count as nat,
            ),
    {
        let room = self.room();
        if first > room as u64 || count as u64 > room as u64 - first {
            return None;
        }
        let start = self.reserved + first as u32;
        let mut entities: Vec<Entity> = Vec::new();
        let mut taken: u32 = 0;
        while taken < count
            invariant
                self.wf(),
                start == self@.reserved + first,
                start + count <= self@.capacity(),
                self@.capacity() <= u32::MAX,
                taken <= count,
                entities.len() == taken,
                forall|j: int|
                    0 <= j < taken ==> (#[trigger] entities[j])@ == self@.entity_at(start + j),
            decreases count - taken,
        {
            let entity = self.reserved_entity(start + taken);
            entities.push(entity);
            taken = taken + 1;
        }
        assert(ids(entities@) =~= self@.entities_from(start as int, count as nat));
        Some(entities)
    }

    /// Takes over `count` reservations that were made through a window, so
    /// that the next flush makes them real.
    pub fn absorb(&mut self, count: u32)
        requires
            old(self).wf(),
            old(self)@.reserved + count <= old(self)@.capacity(),
        ensures
            final(self).wf(),
            final(self)@ == old(self)@.after_reserve(count as nat),
    {
        proof {
            lemma_live_count_bound(self.meta@);
        }
        self.reserved = self.reserved + count;
    }

    /// Reserves one identity. The table and the free list stay as they are
    /// until the next flush.
    pub fn reserve_entity(&mut self) -> (entity: Entity)
        requires
            old(self).wf(),
            old(self)@.reserved < old(self)@.capacity(),
        ensures
            final(self).wf(),
            entity@ == old(self)@.entity_at(old(self)@.reserved as int),
            final(self)@ == old(self)@.after_reserve(1),
    {
        proof {
            lemma_live_count_bound(self.meta@);
        }
        let entity = self.reserved_entity(self.reserved);
        self.reserved = self.reserved + 1;
        entity
    }

    /// Reserves `count` identities at once: those of the next `count`
    /// ordinals, in order.
    pub fn reserve_entities(&mut self, count: u32) -> (entities: Vec<Entity>)
        requires
            old(self).wf(),
            old(self)@.reserved + count <= old(self)@.capacity(),
        ensures
            final(self).wf(),
            final(self)@ == old(self)@.after_reserve(count as nat),
            entities@.len() == count,
            ids(entities@) == old(self)@.entities_from(old(self)@.reserved as int, count as nat),
    {
        proof {
            lemma_live_count_bound(self.meta@);
        }
        let first = self.reserved;
        let mut entities: Vec<Entity> = Vec::new();
        let mut taken: u32 = 0;
        while taken < count
            invariant
                self.wf(),
                self@ == old(self)@,
                first == self@.reserved,
                first + count <= self@.capacity(),
                self@.capacity() <= u32::MAX,
                taken <= count,
                entities.len() == taken,
                forall|j: int|
                    0 <= j < taken ==> (#[trigger] entities[j])@ == self@.entity_at(first + j),
            decreases count - taken,
        {
            let entity = self.reserved_entity(first + taken);
            entities.push(entity);
            taken = taken + 1;
        }
        self.reserved = first + count;
        assert(ids(entities@) =~= old(self)@.entities_from(first as int, count as nat));
        entities
    }

    /// Makes every reservation real, in the order of the ordinals: its slot
    /// gets what `resolver` returns for its identity, a location or `None`
    /// for an identity that is to stay invalid. The slots that came from the
    /// free list leave it, and the table grows by the others.
    pub fn flush<F: Fn(Entity) -> Option<EntityLocation>>(&mut self, resolver: F)
        requires
            old(self).wf(),
            forall|k: int|
                0 <= k < old(self)@.reserved ==> call_requires(
                    resolver,
                    (#[trigger] old(self)@.entity_at(k).handle(),),
                ),
        ensures
            final(self).wf(),
            final(self)@ == old(self)@.flushed(old(self)@.resolutions(final(self)@)),
            forall|k: int|
                0 <= k < old(self)@.reserved ==> call_ensures(
                    resolver,
                    (#[trigger] old(self)@.entity_at(k).handle(),),
                    final(self)@.meta[old(self)@.slot_at(k)].location,
                ),
    {
        let count = self.reserved;
        let free_len = self.free.len();
        let table_len = self.meta.len();
        let ghost before = self@;
        let ghost mut locs: Seq<Option<EntityLocation>> = Seq::empty();
        proof {
            lemma_live_count_bound(self.meta@);
        }
        let mut k: u32 = 0;
        while k < count
            invariant
                before.wf(),
                before == old(self)@,
                count == before.reserved,
                free_len == before.free.len(),
                table_len == before.meta.len(),
                k <= count,
                locs.len() == k,
                self.free@ == before.free,
                self.meta@ == before.materialized(locs),
                self.live == before.live() + count_some(locs),
                before.live() + before.free.len() <= before.meta.len(),
                forall|j: int|
                    0 <= j < k ==> call_ensures(
                        resolver,
                        (#[trigger] before.entity_at(j).handle(),),
                        locs[j],
                    ),
                forall|j: int|
                    0 <= j < count ==> call_requires(
                        resolver,
                        (#[trigger] before.entity_at(j).handle(),),
                    ),
            decreases count - k,
        {
            proof {
                lemma_materialized(before, locs);
                lemma_count_some_bound(locs);
                assert forall|j: int| #![trigger before.slot_at(j)] 0 <= j < k implies before.slot_at(
                    j,
                ) != before.slot_at(k as int) by {
                    lemma_slot_at_distinct(before, j, k as int);
                }
                if k < free_len {
                    assert(before.free[free_len - 1 - k] < before.meta.len());
                }
            }
            let index = derive_slot(k, free_len, &self.free, table_len);
            let recycled = (k as usize) < free_len;
            let generation = if recycled {
                self.meta[index as usize].generation
            } else {
                0
            };
            let entity = Entity::new(index, generation);
            assert(entity == before.entity_at(k as int).handle());
            let location = resolver(entity);
            let ghost grown = locs.push(location);
            proof {
                assert(grown.drop_last() =~= locs);
            }
            if recycled {
                self.meta[index as usize] = SlotMeta { generation, location };
            } else {
                self.meta.push(SlotMeta { generation, location });
            }
            if location.is_some() {
                self.live = self.live + 1;
            }
            proof {
                locs = grown;
            }
            k = k + 1;
        }
        let kept = if (count as usize) < free_len {
            free_len - count as usize
        } else {
            0
        };
        self.free.truncate(kept);
        self.reserved = 0;
        proof {
            lemma_materialized(before, locs);
            lemma_materialized_live(before, locs);
            lemma_flushed_wf(before, locs);
            assert(locs =~= before.resolutions(self@));
            assert(self.free@ =~= before.free_after_flush(locs.len()));
        }
    }

    /// Makes every reservation real without a location: the identities are
    /// used up, and none of them is live.
    pub fn flush_as_invalid(&mut self)
        requires
            old(self).wf(),
        ensures
            final(self).wf(),
            final(self)@ == old(self)@.flushed_as_invalid(),
    {
        let invalid = |e: Entity| -> (r: Option<EntityLocation>)
            ensures
                r is None,
            { None };
        self.flush(invalid);
        proof {
            assert forall|k: int| 0 <= k < old(self)@.reserved implies self@.meta[old(
                self,
            )@.slot_at(k)].location is None by {
                assert(call_ensures(
                    invalid,
                    (old(self)@.entity_at(k).handle(),),
                    self@.meta[old(self)@.slot_at(k)].location,
                ));
            }
            assert(old(self)@.resolutions(self@) =~= Seq::new(
                old(self)@.reserved,
                |k: int| None::<EntityLocation>,
            ));
        }
    }
}

} // verus!
