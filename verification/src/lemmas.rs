//! Facts about the model that the allocator's proofs share.

use crate::entity::EntityLocation;
use crate::state::{count_some, live_count, SlotMeta, State};
use vstd::prelude::*;

verus! {

/// One for a slot with a location, zero for one without.
pub open spec fn occupancy(m: SlotMeta) -> int {
    if m.location is Some {
        1
    } else {
        0
    }
}

/// No more slots are live than the table has.
pub proof fn lemma_live_count_bound(meta: Seq<SlotMeta>)
    ensures
        live_count(meta) <= meta.len(),
    decreases meta.len(),
{
    if meta.len() > 0 {
        lemma_live_count_bound(meta.drop_last());
    }
}

/// A new slot at the end of the table adds its own occupancy to the count.
pub proof fn lemma_live_count_push(meta: Seq<SlotMeta>, m: SlotMeta)
    ensures
        live_count(meta.push(m)) == live_count(meta) + occupancy(m),
{
    assert(meta.push(m).drop_last() =~= meta);
}

/// Rewriting one slot changes the count by the difference in occupancy.
pub proof fn lemma_live_count_update(meta: Seq<SlotMeta>, i: int, m: SlotMeta)
    requires
        0 <= i < meta.len(),
    ensures
        live_count(meta.update(i, m)) == live_count(meta) - occupancy(meta[i]) + occupancy(m),
    decreases meta.len(),
{
    if i == meta.len() - 1 {
        assert(meta.update(i, m).drop_last() =~= meta.drop_last());
    } else {
        assert(meta.update(i, m).drop_last() =~= meta.drop_last().update(i, m));
        lemma_live_count_update(meta.drop_last(), i, m);
    }
}

/// No more entries are locations than there are entries.
pub proof fn lemma_count_some_bound(locs: Seq<Option<EntityLocation>>)
    ensures
        count_some(locs) <= locs.len(),
    decreases locs.len(),
{
    if locs.len() > 0 {
        lemma_count_some_bound(locs.drop_last());
    }
}

/// Two different ordinals never get the same slot.
pub proof fn lemma_slot_at_distinct(s: State, j: int, k: int)
    requires
        s.wf(),
        0 <= j,
        0 <= k,
        j != k,
    ensures
        s.slot_at(j) != s.slot_at(k),
{
    let f = s.free.len() as int;
    if j < f && k < f {
        assert(s.free[f - 1 - j] != s.free[f - 1 - k]);
    } else if j < f {
        assert(s.free[f - 1 - j] < s.meta.len());
    } else if k < f {
        assert(s.free[f - 1 - k] < s.meta.len());
    }
}

/// What the table looks like after the first reservations are resolved: it
/// has grown by the reservations that the free list could not serve, each
/// resolved reservation's slot holds its generation and its resolution, and
/// every other slot is as it was.
pub proof fn lemma_materialized(s: State, locs: Seq<Option<EntityLocation>>)
    requires
        s.wf(),
    ensures
        s.materialized(locs).len() == s.meta.len() + if locs.len() > s.free.len() {
            locs.len() - s.free.len()
        } else {
            0
        },
        forall|j: int|
            #![trigger s.slot_at(j)]
            0 <= j < locs.len() ==> s.materialized(locs)[s.slot_at(j)] == (SlotMeta {
                generation: s.entity_at(j).generation,
                location: locs[j],
            }),
        forall|i: int|
            0 <= i < s.meta.len() && (forall|j: int|
                #![trigger s.slot_at(j)]
                0 <= j < locs.len() ==> s.slot_at(j) != i) ==> #[trigger] s.materialized(locs)[i]
                == s.meta[i],
    decreases locs.len(),
{
    if locs.len() > 0 {
        let k = locs.len() - 1;
        let before = s.materialized(locs.drop_last());
        let f = s.free.len() as int;
        lemma_materialized(s, locs.drop_last());
        if k < f {
            assert(s.free[f - 1 - k] < s.meta.len());
        }
        assert forall|j: int| #![trigger s.slot_at(j)] 0 <= j < locs.len() implies s.materialized(
            locs,
        )[s.slot_at(j)] == (SlotMeta {
            generation: s.entity_at(j).generation,
            location: locs[j],
        }) by {
            if j < k {
                lemma_slot_at_distinct(s, j, k);
                assert(locs.drop_last()[j] == locs[j]);
                if j < f {
                    assert(s.free[f - 1 - j] < s.meta.len());
                }
            }
        }
    }
}

/// A resolved reservation adds one live slot where it got a location.
pub proof fn lemma_materialized_live(s: State, locs: Seq<Option<EntityLocation>>)
    requires
        s.wf(),
    ensures
        live_count(s.materialized(locs)) == live_count(s.meta) + count_some(locs),
    decreases locs.len(),
{
    if locs.len() > 0 {
        let k = locs.len() - 1;
        let before = s.materialized(locs.drop_last());
        let f = s.free.len() as int;
        lemma_materialized_live(s, locs.drop_last());
        lemma_materialized(s, locs.drop_last());
        if k < f {
            let slot = s.slot_at(k);
            assert(s.free[f - 1 - k] < s.meta.len());
            assert forall|j: int| #![trigger s.slot_at(j)] 0 <= j < k implies s.slot_at(j)
                != slot by {
                lemma_slot_at_distinct(s, j, k);
            }
            assert(before[slot] == s.meta[slot]);
            lemma_live_count_update(
                before,
                slot,
                SlotMeta { generation: s.entity_at(k).generation, location: locs.last() },
            );
        } else {
            lemma_live_count_push(before, SlotMeta { generation: 0, location: locs.last() });
        }
    }
}

/// A flush of all reservations leaves a state that satisfies the invariant.
pub proof fn lemma_flushed_wf(s: State, locs: Seq<Option<EntityLocation>>)
    requires
        s.wf(),
        locs.len() == s.reserved,
    ensures
        s.flushed(locs).wf(),
{
    let t = s.flushed(locs);
    let f = s.free.len() as int;
    lemma_materialized(s, locs);
    lemma_materialized_live(s, locs);
    lemma_count_some_bound(locs);
    assert forall|p: int| 0 <= p < t.free.len() implies (#[trigger] t.free[p]) < t.meta.len()
        && t.meta[t.free[p] as int].location is None by {
        let i = s.free[p] as int;
        assert(t.free[p] == s.free[p]);
        assert forall|j: int| #![trigger s.slot_at(j)] 0 <= j < locs.len() implies s.slot_at(j)
            != i by {
            if j < f {
                assert(s.free[f - 1 - j] != s.free[p]);
            }
        }
        assert(t.meta[i] == s.meta[i]);
    }
}

} // verus!
