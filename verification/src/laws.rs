//! What holds of the allocator across its operations.

use crate::entity::{EntityId, EntityLocation};
use crate::lemmas::{
    lemma_flushed_wf, lemma_live_count_push, lemma_live_count_update, lemma_materialized,
    lemma_materialized_live, lemma_slot_at_distinct,
};
use crate::state::{count_some, max_slots, next_generation, SlotMeta, State};
use vstd::prelude::*;

verus! {

/// An exclusive allocation keeps the invariant.
pub proof fn allocation_keeps_invariant(s: State)
    requires
        s.wf(),
        !s.needs_flush(),
        s.capacity() > 0,
    ensures
        s.after_alloc().wf(),
{
    if s.free.len() > 0 {
        let t = s.after_alloc();
        assert forall|j: int| 0 <= j < t.free.len() implies (#[trigger] t.free[j]) < t.meta.len()
            && t.meta[t.free[j] as int].location is None by {
            assert(t.free[j] == s.free[j]);
        }
    } else {
        lemma_live_count_push(s.meta, SlotMeta { generation: 0, location: None });
    }
}

/// A successful free keeps the invariant.
pub proof fn free_keeps_invariant(s: State, e: EntityId)
    requires
        s.wf(),
        s.is_live(e),
    ensures
        s.after_free(e).wf(),
{
    let t = s.after_free(e);
    lemma_live_count_update(
        s.meta,
        e.index as int,
        SlotMeta { generation: next_generation(e.generation), location: None },
    );
    assert forall|j: int| 0 <= j < t.free.len() implies (#[trigger] t.free[j]) < t.meta.len()
        && t.meta[t.free[j] as int].location is None by {
        if j < s.free.len() {
            assert(t.free[j] == s.free[j]);
        }
    }
    assert forall|i: int, j: int| 0 <= i < t.free.len() && 0 <= j < t.free.len() && i != j implies t.free[i]
        != t.free[j] by {
        if i < s.free.len() {
            assert(t.free[i] == s.free[i]);
        }
        if j < s.free.len() {
            assert(t.free[j] == s.free[j]);
        }
    }
}

/// Generation invalidation: once an attempt was made to free an identity, a
/// lookup of it finds no location and it is not live, so that a second free
/// of it is refused and changes nothing. This holds whether the first attempt
/// succeeded or not.
pub proof fn freed_entity_is_stale(s: State, e: EntityId)
    requires
        s.wf(),
    ensures
        s.free_outcome(e).location_of(e) is None,
        !s.free_outcome(e).is_live(e),
        s.free_outcome(e).free_outcome(e) == s.free_outcome(e),
{
}

/// Recycling: the allocation that follows a successful free hands out the
/// freed slot again, under the next generation, which differs from the old.
pub proof fn free_then_allocate_recycles(s: State, e: EntityId)
    requires
        s.wf(),
        s.is_live(e),
    ensures
        s.after_free(e).allocated().index == e.index,
        s.after_free(e).allocated().generation == next_generation(e.generation),
        s.after_free(e).allocated().generation != e.generation,
{
}

/// Reservation uniqueness: two different ordinals of one reservation window
/// give identities that differ, in their slot already.
pub proof fn distinct_ordinals_distinct_entities(s: State, j: int, k: int)
    requires
        s.wf(),
        0 <= j < s.capacity(),
        0 <= k < s.capacity(),
        j != k,
    ensures
        s.entity_at(j).index != s.entity_at(k).index,
        s.entity_at(j) != s.entity_at(k),
{
    lemma_slot_at_distinct(s, j, k);
    slot_is_in_range(s, j);
    slot_is_in_range(s, k);
}

/// Every ordinal that fits the index space gets a slot index below the
/// largest table size.
pub proof fn slot_is_in_range(s: State, k: int)
    requires
        s.wf(),
        0 <= k < s.capacity(),
    ensures
        0 <= s.slot_at(k) < max_slots(),
        s.entity_at(k).index == s.slot_at(k),
{
    let f = s.free.len() as int;
    if k < f {
        assert(s.free[f - 1 - k] < s.meta.len());
    }
}

/// A flush with no reservation pending changes nothing.
pub proof fn flush_without_reservations_changes_nothing(s: State)
    requires
        s.wf(),
        !s.needs_flush(),
    ensures
        s.flushed(Seq::empty()) == s,
        s.flushed_as_invalid() == s,
{
    assert(s.free_after_flush(0) =~= s.free);
    assert(Seq::new(0, |k: int| None::<EntityLocation>) =~= Seq::<Option<EntityLocation>>::empty());
}

/// A flush adds one live entity for each reservation that got a location:
/// all of them where the resolver never answers `None`, none where it always
/// does.
pub proof fn flush_counts_locations(s: State, locs: Seq<Option<EntityLocation>>)
    requires
        s.wf(),
        locs.len() == s.reserved,
    ensures
        s.flushed(locs).live() == s.live() + count_some(locs),
        (forall|k: int| 0 <= k < locs.len() ==> locs[k] is Some) ==> s.flushed(locs).live()
            == s.live() + s.reserved,
        (forall|k: int| 0 <= k < locs.len() ==> locs[k] is None) ==> s.flushed(locs).live()
            == s.live(),
{
    lemma_materialized_live(s, locs);
    if forall|k: int| 0 <= k < locs.len() ==> locs[k] is Some {
        count_of_all_some(locs);
    }
    if forall|k: int| 0 <= k < locs.len() ==> locs[k] is None {
        count_of_all_none(locs);
    }
}

proof fn count_of_all_some(locs: Seq<Option<EntityLocation>>)
    requires
        forall|k: int| 0 <= k < locs.len() ==> locs[k] is Some,
    ensures
        count_some(locs) == locs.len(),
    decreases locs.len(),
{
    if locs.len() > 0 {
        count_of_all_some(locs.drop_last());
    }
}

proof fn count_of_all_none(locs: Seq<Option<EntityLocation>>)
    requires
        forall|k: int| 0 <= k < locs.len() ==> locs[k] is None,
    ensures
        count_some(locs) == 0,
    decreases locs.len(),
{
    if locs.len() > 0 {
        count_of_all_none(locs.drop_last());
    }
}

/// Visibility before the flush: the identity of any ordinal, handed out
/// already or not, has no location, and reservations do not change what a
/// lookup finds. So a reserved identity has no location until a flush.
pub proof fn reserved_entity_has_no_location(s: State, k: int, more: nat, e: EntityId)
    requires
        s.wf(),
        0 <= k < s.capacity(),
    ensures
        s.location_of(s.entity_at(k)) is None,
        !s.is_live(s.entity_at(k)),
        s.after_reserve(more).location_of(e) == s.location_of(e),
        s.after_reserve(more).entity_at(k) == s.entity_at(k),
{
    let f = s.free.len() as int;
    if k < f {
        assert(s.free[f - 1 - k] < s.meta.len());
    }
}

/// Flush and allocation agree: from a flushed state, `n` reservations that
/// are then flushed as invalid leave exactly the state that `n` exclusive
/// allocations leave, table and free list alike, and the reservation with
/// ordinal `k` has the identity that the allocation number `k` hands out. So
/// the free list is used up in the same order on both paths.
pub proof fn flush_as_invalid_matches_allocations(s: State, n: nat)
    requires
        s.wf(),
        !s.needs_flush(),
        n <= s.capacity(),
    ensures
        s.after_reserve(n).flushed_as_invalid() == s.after_allocs(n),
        s.after_allocs(n).wf(),
        forall|k: int|
            0 <= k < n ==> s.entity_at(k) == (#[trigger] s.after_allocs(k as nat)).allocated(),
    decreases n,
{
    let r = s.after_reserve(n);
    let none = Seq::new(n, |k: int| None::<EntityLocation>);
    lemma_flushed_wf(r, none);
    if n == 0 {
        assert(r.flushed_as_invalid().free =~= s.free);
    } else {
        let m = (n - 1) as nat;
        let f = s.free.len() as int;
        let before = Seq::new(m, |k: int| None::<EntityLocation>);
        flush_as_invalid_matches_allocations(s, m);
        let prev = s.after_allocs(m);
        assert(none.drop_last() =~= before);
        assert(s.after_reserve(m).materialized(before) == r.materialized(before)) by {
            same_table_whatever_is_reserved(s.after_reserve(m), r, before);
        }
        assert(prev.meta == r.materialized(before));
        lemma_materialized(r, before);
        if m < f {
            let slot = r.slot_at(m as int);
            assert(s.free[f - 1 - m] < s.meta.len());
            assert forall|j: int| #![trigger r.slot_at(j)] 0 <= j < m implies r.slot_at(j)
                != slot by {
                lemma_slot_at_distinct(r, j, m as int);
            }
            assert(prev.meta[slot] == s.meta[slot]);
            assert(r.materialized(none) =~= prev.meta);
            assert(prev.free =~= s.free.take(f - m));
            assert(prev.free.drop_last() =~= r.free_after_flush(n));
            assert(prev.allocated() == s.entity_at(m as int));
        } else {
            assert(prev.free =~= Seq::<u32>::empty());
            assert(r.free_after_flush(n) =~= Seq::<u32>::empty());
            assert(prev.allocated() == s.entity_at(m as int));
        }
        assert(r.flushed_as_invalid() == prev.after_alloc());
    }
}

/// The table that a flush builds does not depend on how many reservations the
/// state says are pending, only on the resolutions it is given.
proof fn same_table_whatever_is_reserved(a: State, b: State, locs: Seq<Option<EntityLocation>>)
    requires
        a.meta == b.meta,
        a.free == b.free,
    ensures
        a.materialized(locs) == b.materialized(locs),
    decreases locs.len(),
{
    if locs.len() > 0 {
        same_table_whatever_is_reserved(a, b, locs.drop_last());
    }
}

} // verus!
