use entity_alloc::entities::Entities;
use entity_alloc::entity::{Entity, EntityLocation};
use entity_alloc::window::{IndexSpaceExhausted, ReservationWindow};

#[test]
fn window_hands_out_the_ordinals_in_turn() {
    let mut entities = Entities::new();
    let seed = entities.reserve_entities(3);
    entities.flush(|e: Entity| Some(EntityLocation { table: 0, row: e.index() }));
    assert!(entities.free(seed[1]).is_ok());
    let window = ReservationWindow::open(&entities);
    let a = window.reserve_entity().unwrap();
    let rest = window.reserve_entities(2).unwrap();
    assert_eq!((a.index(), a.generation()), (1, 1));
    assert_eq!((rest[0].index(), rest[0].generation()), (3, 0));
    assert_eq!((rest[1].index(), rest[1].generation()), (4, 0));
    let count = window.close();
    assert_eq!(count, 3);
    assert_eq!(entities.reservation(0), Some(a));
    assert_eq!(entities.reservations(1, 2), Some(rest.clone()));
    assert!(entities.can_reserve(count));
    entities.absorb(count);
    assert!(entities.needs_flush());
    entities.flush(|e: Entity| Some(EntityLocation { table: 1, row: e.index() }));
    assert_eq!(entities.len(), 5);
    assert_eq!(entities.get_location(a), Some(EntityLocation { table: 1, row: 1 }));
    assert_eq!(entities.get_location(rest[1]), Some(EntityLocation { table: 1, row: 4 }));
}

#[test]
fn window_continues_after_exclusive_reservations() {
    let mut entities = Entities::new();
    let first = entities.reserve_entity();
    let window = ReservationWindow::open(&entities);
    let second = window.reserve_entity().unwrap();
    assert_eq!(first.index(), 0);
    assert_eq!(second.index(), 1);
    assert_eq!(window.close(), 1);
}

#[test]
fn reservations_of_many_callers_are_distinct() {
    let mut entities = Entities::new();
    let window = ReservationWindow::open(&entities);
    let callers: Vec<&ReservationWindow> = (0..8).map(|_| &window).collect();
    let mut reserved: Vec<Entity> = Vec::new();
    for round in 0..250 {
        for (turn, caller) in callers.iter().enumerate() {
            if (round + turn) % 2 == 0 {
                reserved.push(caller.reserve_entity().unwrap());
                reserved.extend(caller.reserve_entities(4).unwrap());
            } else {
                reserved.extend(caller.reserve_entities(5).unwrap());
            }
        }
    }
    let count = window.close();
    assert_eq!(count, 10_000);
    assert_eq!(reserved.len(), 10_000);
    reserved.sort();
    reserved.dedup();
    assert_eq!(reserved.len(), 10_000);
    entities.absorb(count);
    entities.flush(|e: Entity| Some(EntityLocation { table: 0, row: e.index() }));
    assert_eq!(entities.len(), 10_000);
}

#[test]
fn two_callers_reserve_three_then_flush_as_invalid() {
    let mut entities = Entities::new();
    let window = ReservationWindow::open(&entities);
    let (first, second) = (&window, &window);
    let a = first.reserve_entities(2).unwrap();
    let b = second.reserve_entities(1).unwrap();
    let count = window.close();
    assert_eq!(count, 3);
    entities.absorb(count);
    entities.flush_as_invalid();
    assert_eq!(entities.len(), 0);
    let mut indices = vec![a[0].index(), a[1].index(), b[0].index()];
    indices.sort();
    assert_eq!(indices, vec![0, 1, 2]);
    let next = entities.allocate();
    assert_eq!(next.index(), 3);
    assert!(!indices.contains(&next.index()));
}

#[test]
fn reservation_beyond_the_index_space_fails() {
    let mut entities = Entities::new();
    entities.absorb(u32::MAX - 2);
    assert_eq!(entities.room(), 2);
    assert_eq!(entities.reservation(2), None);
    assert_eq!(entities.reservations(1, 2), None);
    assert_eq!(entities.reservations(3, 0), None);
    assert_eq!(entities.reservations(2, 0), Some(Vec::new()));
    assert_eq!(entities.reservation(1).map(|e| e.index()), Some(u32::MAX - 1));
    let window = ReservationWindow::open(&entities);
    assert_eq!(window.reserve_entities(3), Err(IndexSpaceExhausted));
    assert_eq!(window.reserve_entity(), Err(IndexSpaceExhausted));
    assert_eq!(window.close(), 2);
}

#[test]
fn claimed_is_the_tickets_within_the_index_space() {
    let mut entities = Entities::new();
    assert_eq!(entities.claimed(0), 0);
    assert_eq!(entities.claimed(17), 17);
    assert_eq!(entities.claimed(u64::MAX), u32::MAX);
    entities.absorb(u32::MAX - 5);
    assert_eq!(entities.claimed(4), 4);
    assert_eq!(entities.claimed(5), 5);
    assert_eq!(entities.claimed(6), 5);
}
