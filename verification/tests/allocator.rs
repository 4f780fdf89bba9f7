use entity_alloc::entities::{Entities, StaleEntityError};
use entity_alloc::entity::{Entity, EntityLocation};
use entity_alloc::slot::derive_slot;

fn at(table: u32, row: u32) -> EntityLocation {
    EntityLocation { table, row }
}

/// An allocator with `n` live entities in slots `0..n`, slot `i` at row `i`.
fn with_live(n: u32) -> (Entities, Vec<Entity>) {
    let mut entities = Entities::new();
    assert!(entities.can_reserve(n));
    let reserved = entities.reserve_entities(n);
    entities.flush(|e: Entity| Some(at(7, e.index())));
    (entities, reserved)
}

#[test]
fn fresh_allocator_is_empty() {
    let entities = Entities::new();
    assert_eq!(entities.len(), 0);
    assert!(entities.is_empty());
    assert!(!entities.needs_flush());
    assert!(entities.can_reserve(u32::MAX));
    assert_eq!(entities.room(), u32::MAX);
}

#[test]
fn allocate_takes_new_slots_in_order() {
    let mut entities = Entities::new();
    let a = entities.allocate();
    let b = entities.allocate();
    let c = entities.allocate();
    assert_eq!((a.index(), a.generation()), (0, 0));
    assert_eq!((b.index(), b.generation()), (1, 0));
    assert_eq!((c.index(), c.generation()), (2, 0));
    assert_eq!(entities.room(), u32::MAX - 3);
}

#[test]
fn allocated_entity_has_no_location() {
    let mut entities = Entities::new();
    let e = entities.allocate();
    assert_eq!(entities.get_location(e), None);
    assert!(!entities.contains(e));
    assert_eq!(entities.len(), 0);
}

#[test]
fn free_of_unlocated_entity_is_stale() {
    let mut entities = Entities::new();
    let e = entities.allocate();
    assert_eq!(entities.free(e), Err(StaleEntityError));
    assert_eq!(entities.get_location(e), None);
    assert_eq!(entities.free(e), Err(StaleEntityError));
    let next = entities.allocate();
    assert_eq!((next.index(), next.generation()), (1, 0));
}

#[test]
fn free_returns_the_old_location() {
    let (mut entities, reserved) = with_live(3);
    assert_eq!(entities.len(), 3);
    assert_eq!(entities.free(reserved[1]), Ok(at(7, 1)));
    assert_eq!(entities.len(), 2);
    assert_eq!(entities.get_location(reserved[0]), Some(at(7, 0)));
    assert_eq!(entities.get_location(reserved[1]), None);
    assert_eq!(entities.get_location(reserved[2]), Some(at(7, 2)));
}

#[test]
fn freed_entity_is_stale() {
    let (mut entities, reserved) = with_live(1);
    let e = reserved[0];
    assert!(entities.contains(e));
    assert_eq!(entities.free(e), Ok(at(7, 0)));
    assert_eq!(entities.get_location(e), None);
    assert!(!entities.contains(e));
    assert_eq!(entities.free(e), Err(StaleEntityError));
    assert_eq!(entities.len(), 0);
    assert!(entities.is_empty());
}

#[test]
fn free_of_unknown_index_is_stale() {
    let (mut entities, _) = with_live(1);
    let mut other = Entities::new();
    other.allocate();
    let stranger = other.allocate();
    assert_eq!(stranger.index(), 1);
    assert_eq!(entities.free(stranger), Err(StaleEntityError));
    assert_eq!(entities.get_location(stranger), None);
    assert_eq!(entities.len(), 1);
}

#[test]
fn freed_slot_is_recycled_with_the_next_generation() {
    let (mut entities, reserved) = with_live(2);
    let e1 = reserved[0];
    assert_eq!(entities.free(e1), Ok(at(7, 0)));
    let e2 = entities.allocate();
    assert_eq!(e2.index(), e1.index());
    assert_eq!(e2.generation(), 1);
    assert_ne!(e2.generation(), e1.generation());
    assert_ne!(e1, e2);
    assert_eq!(entities.get_location(e1), None);
}

#[test]
fn free_list_is_a_stack() {
    let (mut entities, reserved) = with_live(4);
    assert_eq!(entities.free(reserved[2]), Ok(at(7, 2)));
    assert_eq!(entities.free(reserved[0]), Ok(at(7, 0)));
    assert_eq!(entities.free(reserved[3]), Ok(at(7, 3)));
    let a = entities.allocate();
    let b = entities.allocate();
    let c = entities.allocate();
    let d = entities.allocate();
    assert_eq!((a.index(), a.generation()), (3, 1));
    assert_eq!((b.index(), b.generation()), (0, 1));
    assert_eq!((c.index(), c.generation()), (2, 1));
    assert_eq!((d.index(), d.generation()), (4, 0));
}

#[test]
fn reservations_take_free_slots_first_then_new_ones() {
    let (mut entities, reserved) = with_live(3);
    assert_eq!(entities.free(reserved[0]), Ok(at(7, 0)));
    assert_eq!(entities.free(reserved[2]), Ok(at(7, 2)));
    let a = entities.reserve_entity();
    assert!(entities.needs_flush());
    let rest = entities.reserve_entities(3);
    assert_eq!((a.index(), a.generation()), (2, 1));
    assert_eq!(rest.len(), 3);
    assert_eq!((rest[0].index(), rest[0].generation()), (0, 1));
    assert_eq!((rest[1].index(), rest[1].generation()), (3, 0));
    assert_eq!((rest[2].index(), rest[2].generation()), (4, 0));
    assert_eq!(entities.reserved_entity(0), a);
    assert_eq!(entities.reserved_entity(3), rest[2]);
}

#[test]
fn reserved_entity_has_no_location_before_flush() {
    let (mut entities, reserved) = with_live(2);
    assert_eq!(entities.free(reserved[1]), Ok(at(7, 1)));
    let recycled = entities.reserve_entity();
    let fresh = entities.reserve_entity();
    assert_eq!(entities.get_location(recycled), None);
    assert_eq!(entities.get_location(fresh), None);
    assert!(!entities.contains(recycled));
    assert!(!entities.contains(fresh));
    assert_eq!(entities.len(), 1);
    entities.flush(|e: Entity| Some(at(9, e.index())));
    assert_eq!(entities.get_location(recycled), Some(at(9, 1)));
    assert_eq!(entities.get_location(fresh), Some(at(9, 2)));
    assert_eq!(entities.len(), 3);
    assert!(!entities.needs_flush());
}

#[test]
fn flush_records_what_the_resolver_returns() {
    let mut entities = Entities::new();
    let reserved = entities.reserve_entities(4);
    entities.flush(|e: Entity| if e.index() % 2 == 0 { Some(at(1, e.index() * 10)) } else { None });
    assert_eq!(entities.get_location(reserved[0]), Some(at(1, 0)));
    assert_eq!(entities.get_location(reserved[1]), None);
    assert_eq!(entities.get_location(reserved[2]), Some(at(1, 20)));
    assert_eq!(entities.get_location(reserved[3]), None);
    assert_eq!(entities.len(), 2);
    assert_eq!(entities.free(reserved[1]), Err(StaleEntityError));
    assert_eq!(entities.free(reserved[2]), Ok(at(1, 20)));
}

#[test]
fn flush_with_nothing_pending_changes_nothing() {
    let (mut entities, reserved) = with_live(2);
    entities.flush(|_e: Entity| Some(at(0, 0)));
    entities.flush_as_invalid();
    assert_eq!(entities.len(), 2);
    assert_eq!(entities.get_location(reserved[0]), Some(at(7, 0)));
    assert_eq!(entities.get_location(reserved[1]), Some(at(7, 1)));
    let next = entities.allocate();
    assert_eq!((next.index(), next.generation()), (2, 0));
}

#[test]
fn flush_as_invalid_uses_up_the_reserved_slots() {
    let mut entities = Entities::new();
    let reserved = entities.reserve_entities(3);
    entities.flush_as_invalid();
    assert_eq!(entities.len(), 0);
    let mut indices: Vec<u32> = reserved.iter().map(|e| e.index()).collect();
    indices.sort();
    indices.dedup();
    assert_eq!(indices, vec![0, 1, 2]);
    let next = entities.allocate();
    assert_eq!(next.index(), 3);
    for e in reserved {
        assert_eq!(entities.get_location(e), None);
        assert_eq!(entities.free(e), Err(StaleEntityError));
    }
}

#[test]
fn flush_as_invalid_equals_allocations() {
    let build = || {
        let (mut entities, reserved) = with_live(4);
        assert_eq!(entities.free(reserved[1]), Ok(at(7, 1)));
        assert_eq!(entities.free(reserved[3]), Ok(at(7, 3)));
        entities
    };
    let mut by_flush = build();
    let reserved = by_flush.reserve_entities(5);
    by_flush.flush_as_invalid();
    let mut by_alloc = build();
    let mut allocated = Vec::new();
    for _ in 0..5 {
        allocated.push(by_alloc.allocate());
    }
    assert_eq!(reserved, allocated);
    assert_eq!(by_flush.len(), by_alloc.len());
    assert_eq!(by_flush.room(), by_alloc.room());
    for _ in 0..3 {
        assert_eq!(by_flush.allocate(), by_alloc.allocate());
    }
}

#[test]
fn issued_entities_are_distinct() {
    let (mut entities, live) = with_live(3);
    assert_eq!(entities.free(live[1]), Ok(at(7, 1)));
    let mut issued = vec![live[0], live[2]];
    issued.push(entities.allocate());
    issued.push(entities.reserve_entity());
    issued.push(entities.reserve_entity());
    entities.flush(|e: Entity| Some(at(2, e.index())));
    issued.push(entities.allocate());
    issued.extend(entities.reserve_entities(3));
    entities.flush_as_invalid();
    issued.push(entities.allocate());
    for i in 0..issued.len() {
        for j in 0..i {
            assert_ne!(issued[i], issued[j]);
            assert_ne!(issued[i].index(), issued[j].index());
        }
    }
}

#[test]
fn many_reservations_are_distinct_and_all_live_after_flush() {
    let mut entities = Entities::new();
    let mut reserved = Vec::new();
    for chunk in [1250u32, 1, 3749, 5000] {
        assert!(entities.can_reserve(chunk));
        reserved.extend(entities.reserve_entities(chunk));
    }
    assert_eq!(reserved.len(), 10_000);
    let mut sorted = reserved.clone();
    sorted.sort();
    sorted.dedup();
    assert_eq!(sorted.len(), 10_000);
    entities.flush(|e: Entity| Some(at(0, e.index())));
    assert_eq!(entities.len(), 10_000);
}

#[test]
fn generation_counts_the_frees_of_a_slot() {
    let mut entities = Entities::new();
    for round in 0..5u32 {
        let e = entities.reserve_entity();
        assert_eq!((e.index(), e.generation()), (0, round));
        entities.flush(|_e: Entity| Some(at(0, 0)));
        assert_eq!(entities.free(e), Ok(at(0, 0)));
    }
}

#[test]
fn can_reserve_and_room_follow_the_cursor() {
    let mut entities = Entities::new();
    entities.reserve_entities(10);
    assert_eq!(entities.room(), u32::MAX - 10);
    assert!(entities.can_reserve(u32::MAX - 10));
    assert!(!entities.can_reserve(u32::MAX - 9));
    entities.absorb(5);
    assert_eq!(entities.room(), u32::MAX - 15);
    entities.flush_as_invalid();
    assert_eq!(entities.room(), u32::MAX - 15);
    let next = entities.allocate();
    assert_eq!(next.index(), 15);
}

#[test]
fn derive_slot_walks_the_free_list_from_the_top() {
    let free = vec![8u32, 3, 5];
    assert_eq!(derive_slot(0, 3, &free, 10), 5);
    assert_eq!(derive_slot(1, 3, &free, 10), 3);
    assert_eq!(derive_slot(2, 3, &free, 10), 8);
    assert_eq!(derive_slot(3, 3, &free, 10), 10);
    assert_eq!(derive_slot(7, 3, &free, 10), 14);
    assert_eq!(derive_slot(0, 2, &free, 10), 3);
    assert_eq!(derive_slot(2, 2, &free, 10), 10);
    assert_eq!(derive_slot(0, 0, &Vec::new(), 0), 0);
}

#[test]
fn entities_are_ordered_by_index_then_generation() {
    let (mut entities, reserved) = with_live(2);
    let (a, b) = (reserved[0], reserved[1]);
    assert_eq!(entities.free(a), Ok(at(7, 0)));
    let a2 = entities.allocate();
    assert!(a < b);
    assert!(a < a2);
    assert!(a2 < b);
    assert!(!(a < a));
    assert_eq!(a.partial_cmp(&a2), Some(std::cmp::Ordering::Less));
    assert_eq!(b.partial_cmp(&a2), Some(std::cmp::Ordering::Greater));
    assert_eq!(b.partial_cmp(&b), Some(std::cmp::Ordering::Equal));
    assert_eq!(a.cmp(&a2), std::cmp::Ordering::Less);
    let mut all = vec![b, a2, a];
    all.sort();
    assert_eq!(all, vec![a, a2, b]);
}
