//! Entity identities: a slot index paired with a generation counter.

use std::cmp::Ordering;
use vstd::prelude::*;
use vstd::std_specs::cmp::PartialOrdSpecImpl;

verus! {

/// The two numbers an [`Entity`] stands for.
#[derive(Clone, Copy, Debug, PartialEq, Eq, Structural)]
pub struct EntityId {
    pub index: u32,
    pub generation: u32,
}

/// Where the storage layer keeps a live entity: a table and a row in it.
#[derive(Clone, Copy, Debug, PartialEq, Eq, Hash, Structural)]
pub struct EntityLocation {
    pub table: u32,
    pub row: u32,
}

/// An identity handle. Only the allocator makes one; everybody else copies it.
#[derive(Clone, Copy, Debug, PartialEq, Eq, Ord, Hash, Structural)]
pub struct Entity {
    index: u32,
    generation: u32,
}

impl View for Entity {
    type V = EntityId;

    closed spec fn view(&self) -> EntityId {
        EntityId { index: self.index, generation: self.generation }
    }
}

impl EntityId {
    /// The order of identities: by slot index first, by generation second.
    pub open spec fn precedes(self, other: EntityId) -> bool {
        self.index < other.index || (self.index == other.index && self.generation
            < other.generation)
    }

    /// The handle that stands for these two numbers.
    pub closed spec fn handle(self) -> Entity {
        Entity { index: self.index, generation: self.generation }
    }
}

impl Entity {
    pub(crate) fn new(index: u32, generation: u32) -> (e: Entity)
        ensures
            e@ == (EntityId { index, generation }),
            e == (EntityId { index, generation }).handle(),
    {
        Entity { index, generation }
    }

    /// The slot this identity points at.
    pub fn index(&self) -> (i: u32)
        ensures
            i == self@.index,
    {
        self.index
    }

    /// The generation of the slot at the time this identity was handed out.
    pub fn generation(&self) -> (g: u32)
        ensures
            g == self@.generation,
    {
        self.generation
    }
}

impl PartialOrd for Entity {
    fn partial_cmp(&self, other: &Entity) -> (order: Option<Ordering>) {
        if self.index < other.index {
            Some(Ordering::Less)
        } else if self.index > other.index {
            Some(Ordering::Greater)
        } else if self.generation < other.generation {
            Some(Ordering::Less)
        } else if self.generation > other.generation {
            Some(Ordering::Greater)
        } else {
            Some(Ordering::Equal)
        }
    }
}

impl PartialOrdSpecImpl for Entity {
    open spec fn obeys_partial_cmp_spec() -> bool {
        true
    }

    open spec fn partial_cmp_spec(&self, other: &Entity) -> Option<Ordering> {
        if self@.precedes(other@) {
            Some(Ordering::Less)
        } else if other@.precedes(self@) {
            Some(Ordering::Greater)
        } else {
            Some(Ordering::Equal)
        }
    }
}

/// The order of identities is a strict total order: nothing precedes itself,
/// of two different identities exactly one precedes the other, and what
/// precedes a predecessor precedes.
pub proof fn order_is_total(a: EntityId, b: EntityId, c: EntityId)
    ensures
        !a.precedes(a),
        a != b ==> (a.precedes(b) <==> !b.precedes(a)),
        a.precedes(b) && b.precedes(c) ==> a.precedes(c),
{
}

/// What a sequence of handles stands for.
pub open spec fn ids(entities: Seq<Entity>) -> Seq<EntityId> {
    entities.map_values(|e: Entity| e@)
}

/// Handles and pairs of numbers correspond one to one, so two handles are
/// equal exactly where they stand for the same pair.
pub proof fn handles_match_ids(a: Entity, b: Entity, id: EntityId)
    ensures
        a@.handle() == a,
        id.handle()@ == id,
        a@ == b@ <==> a == b,
{
}

} // verus!
