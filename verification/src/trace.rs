//! Runs of the allocator: sequences of allocations, reservations and flushes,
//! and why no identity is handed out twice in one.

use crate::entity::{EntityId, EntityLocation};
use crate::laws::{allocation_keeps_invariant, slot_is_in_range};
use crate::lemmas::{lemma_flushed_wf, lemma_materialized, lemma_slot_at_distinct};
use crate::state::State;
use vstd::prelude::*;

verus! {

/// One operation of a run.
pub enum Step {
    /// An exclusive allocation.
    Allocate,
    /// The reservation of one identity.
    Reserve,
    /// A flush in which the pending reservations get these resolutions, in
    /// the order of their ordinals.
    Flush(Seq<Option<EntityLocation>>),
}

/// Whether the allocator's rules allow `step` in state `s`: an allocation
/// needs a flushed state and room for a slot, a reservation needs room, and a
/// flush resolves each pending reservation.
pub open spec fn step_allowed(s: State, step: Step) -> bool {
    match step {
        Step::Allocate => !s.needs_flush() && s.capacity() > 0,
        Step::Reserve => s.reserved < s.capacity(),
        Step::Flush(locs) => locs.len() == s.reserved,
    }
}

/// The state after `step`.
pub open spec fn after_step(s: State, step: Step) -> State {
    match step {
        Step::Allocate => s.after_alloc(),
        Step::Reserve => s.after_reserve(1),
        Step::Flush(locs) => s.flushed(locs),
    }
}

/// The identity that `step` hands out, if it hands one out.
pub open spec fn issued_by(s: State, step: Step) -> Option<EntityId> {
    match step {
        Step::Allocate => Some(s.allocated()),
        Step::Reserve => Some(s.entity_at(s.reserved as int)),
        Step::Flush(_) => None,
    }
}

/// The state after all of `steps`, in order.
pub open spec fn after_run(s: State, steps: Seq<Step>) -> State
    decreases steps.len(),
{
    if steps.len() == 0 {
        s
    } else {
        after_step(after_run(s, steps.drop_last()), steps.last())
    }
}

/// Whether each of `steps` is allowed in the state in which it is made.
pub open spec fn run_allowed(s: State, steps: Seq<Step>) -> bool
    decreases steps.len(),
{
    steps.len() == 0 || (run_allowed(s, steps.drop_last()) && step_allowed(
        after_run(s, steps.drop_last()),
        steps.last(),
    ))
}

/// The identities that `steps` hand out, in order.
pub open spec fn issued(s: State, steps: Seq<Step>) -> Seq<EntityId>
    decreases steps.len(),
{
    if steps.len() == 0 {
        Seq::empty()
    } else {
        let earlier = issued(s, steps.drop_last());
        match issued_by(after_run(s, steps.drop_last()), steps.last()) {
            Some(e) => earlier.push(e),
            None => earlier,
        }
    }
}

/// Whether no reservation or allocation from `s` on can get slot `i`: it is
/// the slot of no ordinal that is still to be handed out.
pub open spec fn out_of_reach(s: State, i: int) -> bool {
    forall|k: int| k >= s.reserved ==> #[trigger] s.slot_at(k) != i
}

/// A step keeps the invariant, leaves out of reach what was out of reach, and
/// puts the slot that it hands out out of reach.
proof fn step_narrows_reach(s: State, step: Step)
    requires
        s.wf(),
        step_allowed(s, step),
    ensures
        after_step(s, step).wf(),
        forall|i: int| out_of_reach(s, i) ==> out_of_reach(after_step(s, step), i),
        issued_by(s, step) matches Some(e) ==> !out_of_reach(s, e.index as int) && out_of_reach(
            after_step(s, step),
            e.index as int,
        ),
{
    let t = after_step(s, step);
    let f = s.free.len() as int;
    let c = s.reserved as int;
    let shift: int = match step {
        Step::Allocate => 1,
        Step::Reserve => 0,
        Step::Flush(_) => c,
    };
    match step {
        Step::Allocate => {
            allocation_keeps_invariant(s);
        },
        Step::Reserve => {},
        Step::Flush(locs) => {
            lemma_flushed_wf(s, locs);
            lemma_materialized(s, locs);
        },
    }
    assert forall|k: int| k >= 0 implies #[trigger] t.slot_at(k) == s.slot_at(k + shift) by {
        match step {
            Step::Allocate => {},
            Step::Reserve => {},
            Step::Flush(locs) => {},
        }
    }
    assert forall|i: int| out_of_reach(s, i) implies out_of_reach(t, i) by {
        assert forall|k: int| k >= t.reserved implies #[trigger] t.slot_at(k) != i by {
            assert(s.slot_at(k + shift) != i);
        }
    }
    if let Some(e) = issued_by(s, step) {
        slot_is_in_range(s, c);
        let i = e.index as int;
        assert(s.slot_at(c) == i);
        assert forall|k: int| k >= t.reserved implies #[trigger] t.slot_at(k) != i by {
            lemma_slot_at_distinct(s, c, k + shift);
        }
    }
}

/// A run keeps the invariant, and every slot that it has handed out is out of
/// reach of what follows, as is every slot that was out of reach before it.
proof fn run_narrows_reach(s: State, steps: Seq<Step>)
    requires
        s.wf(),
        run_allowed(s, steps),
    ensures
        after_run(s, steps).wf(),
        forall|i: int| out_of_reach(s, i) ==> out_of_reach(after_run(s, steps), i),
        forall|a: int|
            0 <= a < issued(s, steps).len() ==> out_of_reach(
                after_run(s, steps),
                (#[trigger] issued(s, steps)[a]).index as int,
            ),
        forall|a: int|
            0 <= a < issued(s, steps).len() ==> !out_of_reach(
                s,
                (#[trigger] issued(s, steps)[a]).index as int,
            ),
        forall|a: int, b: int|
            0 <= a < b < issued(s, steps).len() ==> (#[trigger] issued(s, steps)[a]).index != (
            #[trigger] issued(s, steps)[b]).index,
    decreases steps.len(),
{
    if steps.len() > 0 {
        let earlier = steps.drop_last();
        let mid = after_run(s, earlier);
        run_narrows_reach(s, earlier);
        step_narrows_reach(mid, steps.last());
        let before = issued(s, earlier);
        let all = issued(s, steps);
        assert forall|a: int| 0 <= a < all.len() implies out_of_reach(
            after_run(s, steps),
            (#[trigger] all[a]).index as int,
        ) by {
            if a < before.len() {
                assert(all[a] == before[a]);
            }
        }
        assert forall|a: int| 0 <= a < all.len() implies !out_of_reach(
            s,
            (#[trigger] all[a]).index as int,
        ) by {
            if a < before.len() {
                assert(all[a] == before[a]);
            }
        }
        assert forall|a: int, b: int| 0 <= a < b < all.len() implies (#[trigger] all[a]).index != (
        #[trigger] all[b]).index by {
            assert(all[a] == before[a]);
            if b < before.len() {
                assert(all[b] == before[b]);
            }
        }
    }
}

/// Uniqueness: in a run of allocations and reservations, with flushes
/// anywhere between them, no two identities that were handed out are equal;
/// they differ in their slot already. Nor does any of them have the slot of
/// an entity that was live before the run.
pub proof fn issued_entities_are_distinct(s: State, steps: Seq<Step>)
    requires
        s.wf(),
        run_allowed(s, steps),
    ensures
        after_run(s, steps).wf(),
        forall|a: int, b: int|
            0 <= a < b < issued(s, steps).len() ==> (#[trigger] issued(s, steps)[a]).index != (
            #[trigger] issued(s, steps)[b]).index,
        forall|a: int, b: int|
            0 <= a < b < issued(s, steps).len() ==> (#[trigger] issued(s, steps)[a]) != (
            #[trigger] issued(s, steps)[b]),
        forall|a: int, e: EntityId|
            0 <= a < issued(s, steps).len() && #[trigger] s.is_live(e) ==> (#[trigger] issued(
                s,
                steps,
            )[a]).index != e.index,
{
    run_narrows_reach(s, steps);
    assert forall|a: int, e: EntityId|
        0 <= a < issued(s, steps).len() && #[trigger] s.is_live(e) implies (#[trigger] issued(
        s,
        steps,
    )[a]).index != e.index by {
        live_slot_is_out_of_reach(s, e);
    }
}

/// The slot of a live entity is the slot of no ordinal.
proof fn live_slot_is_out_of_reach(s: State, e: EntityId)
    requires
        s.wf(),
        s.is_live(e),
    ensures
        out_of_reach(s, e.index as int),
{
    let f = s.free.len() as int;
    assert forall|k: int| k >= s.reserved implies #[trigger] s.slot_at(k) != e.index as int by {
        if k < f {
            assert(s.meta[s.free[f - 1 - k] as int].location is None);
        }
    }
}

} // verus!
