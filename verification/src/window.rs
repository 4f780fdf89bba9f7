//! Reservation from many callers at once: a window on an allocator that hands
//! out ordinals with one atomic counter and never touches the allocator.

use crate::entities::Entities;
use crate::entity::{ids, Entity};
use crate::state::State;
use std::sync::atomic::{AtomicU64, Ordering};
use vstd::prelude::*;

verus! {

/// Returned where a reservation would need a slot index beyond the index
/// space. The reservation is not made.
#[derive(Clone, Copy, Debug, PartialEq, Eq, Structural)]
pub struct IndexSpaceExhausted;

/// A shared view of an allocator for the time in which callers reserve from
/// it concurrently. While a window is open the allocator cannot change, so the
/// identity of each ordinal is fixed; the window only counts the ordinals it
/// has given away.
pub struct ReservationWindow<'a> {
    entities: &'a Entities,
    taken: AtomicU64,
}

impl<'a> ReservationWindow<'a> {
    /// The state of the allocator that the window was opened on.
    pub closed spec fn base(&self) -> State {
        self.entities@
    }

    /// What holds of every window.
    pub closed spec fn wf(&self) -> bool {
        self.entities.wf()
    }

    /// Opens a window on `entities`.
    pub fn open(entities: &'a Entities) -> (window: ReservationWindow<'a>)
        requires
            entities.wf(),
        ensures
            window.wf(),
            window.base() == entities@,
    {
        ReservationWindow { entities, taken: AtomicU64::new(0) }
    }

    /// Takes the next `count` tickets in one atomic step and returns the
    /// first of them. Which ticket a caller gets depends on who else is
    /// taking tickets, so nothing is said of it.
    fn take(&self, count: u64) -> u64 {
        self.taken.fetch_add(count, Ordering::Relaxed)
    }

    /// The number of tickets given away so far.
    fn count(&self) -> u64 {
        self.taken.load(Ordering::Relaxed)
    }

    /// Reserves one identity without blocking: the one of whichever ordinal
    /// the counter gives this caller. It fails where that ordinal is beyond the
    /// index space.
    pub fn reserve_entity(&self) -> (result: Result<Entity, IndexSpaceExhausted>)
        requires
            self.wf(),
        ensures
            result matches Ok(entity) ==> exists|k: int|
                self.base().reserved <= k < self.base().capacity() && entity@
                    == #[trigger] self.base().entity_at(k),
    {
        let ticket = self.take(1);
        match self.entities.reservation(ticket) {
            Some(entity) => {
                assert(entity@ == self.base().entity_at(self.base().reserved + ticket));
                Ok(entity)
            },
            None => Err(IndexSpaceExhausted),
        }
    }

    /// Reserves `count` identities without blocking: those of `count`
    /// ordinals in a row, in order, starting at whichever ordinal the counter
    /// gives this caller. It fails where one of them is beyond the index space.
    pub fn reserve_entities(&self, count: u32) -> (result: Result<Vec<Entity>, IndexSpaceExhausted>)
        requires
            self.wf(),
        ensures
            result matches Ok(entities) ==> entities@.len() == count && exists|first: int|
                self.base().reserved <= first && first + count <= self.base().capacity() && ids(
                    entities@,
                ) == #[trigger] self.base().entities_from(first, count as nat),
    {
        let ticket = self.take(count as u64);
        match self.entities.reservations(ticket, count) {
            Some(entities) => {
                assert(ids(entities@) == self.base().entities_from(
                    self.base().reserved + ticket,
                    count as nat,
                ));
                Ok(entities)
            },
            None => Err(IndexSpaceExhausted),
        }
    }

    /// Closes the window and returns how many reservations the allocator has
    /// to take over: the tickets given away, as far as the index space
    /// reaches.
    pub fn close(self) -> (count: u32)
        requires
            self.wf(),
        ensures
            self.base().reserved + count <= self.base().capacity(),
    {
        let taken = self.count();
        self.entities.claimed(taken)
    }
}

} // verus!
