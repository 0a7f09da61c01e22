use entity_component::{Entities, Entity, BITSET_SIZE};
use std::rc::Rc;

#[test]
fn create_kill_entities() {
    let mut entities = Entities::default();
    let e1 = entities.create();
    let e2 = entities.create();
    let e3 = entities.create();
    assert_eq!(e1.index(), 0);
    assert_eq!(e2.index(), 1);
    assert_eq!(e3.index(), 2);
    assert_eq!(e1.generation(), 0);
    assert!(entities.is_alive(e1));
    assert!(entities.is_alive(e2));
    assert!(entities.is_alive(e3));
    entities.kill(e1);
    assert!(!entities.is_alive(e1));
    assert!(entities.is_alive(e2));
    assert!(entities.is_alive(e3));
    let e4 = entities.create();
    assert!(!entities.is_alive(e1));
    assert!(entities.is_alive(e2));
    assert!(entities.is_alive(e3));
    assert!(entities.is_alive(e4));

    assert_eq!(*entities.killed(), vec![e1]);
    entities.clear_killed();
    assert_eq!(*entities.killed(), vec![]);
}

#[test]
fn test_interleaved_create_kill() {
    let mut entities = Entities::default();

    let e1 = entities.create();
    assert_eq!(e1.index(), 0);
    let e2 = entities.create();
    assert_eq!(e2.index(), 1);
    entities.kill(e1);
    entities.kill(e2);
    assert_eq!(entities.is_alive(e1), false);
    assert_eq!(entities.is_alive(e2), false);

    let e3 = entities.create();
    assert_eq!(e3.index(), 2);
    let e4 = entities.create();
    assert_eq!(e4.index(), 3);
    entities.kill(e3);
    entities.kill(e4);
    assert_eq!(entities.is_alive(e3), false);
    assert_eq!(entities.is_alive(e4), false);
}

#[test]
fn sequential_creates_are_in_order_with_generation_zero() {
    let mut entities = Entities::default();
    for i in 0..1000u32 {
        let e = entities.create();
        assert_eq!(e.index(), i);
        assert_eq!(e.generation(), 0);
    }
}

#[test]
fn killed_index_waits_until_cleared() {
    let mut entities = Entities::default();
    let e0 = entities.create();
    let _e1 = entities.create();
    entities.kill(e0);
    let e2 = entities.create();
    assert_eq!(e2.index(), 2);
    assert_eq!(e2.generation(), 0);
    assert!(!entities.is_alive(e0));
    entities.clear_killed();
    let e3 = entities.create();
    assert_eq!(e3.index(), 0);
    assert_eq!(e3.generation(), 1);
    assert!(entities.is_alive(e3));
    assert!(!entities.is_alive(e0));
    assert_ne!(e3, e0);
}

#[test]
fn reuse_takes_lowest_free_slot() {
    let mut entities = Entities::default();
    let es: Vec<Entity> = (0..10).map(|_| entities.create()).collect();
    entities.kill(es[7]);
    entities.kill(es[3]);
    entities.clear_killed();
    let a = entities.create();
    assert_eq!((a.index(), a.generation()), (3, 1));
    let b = entities.create();
    assert_eq!((b.index(), b.generation()), (7, 1));
    let c = entities.create();
    assert_eq!((c.index(), c.generation()), (10, 0));
}

#[test]
fn reuse_scans_past_full_blocks() {
    let mut entities = Entities::default();
    let es: Vec<Entity> = (0..100).map(|_| entities.create()).collect();
    entities.kill(es[70]);
    entities.clear_killed();
    let a = entities.create();
    assert_eq!((a.index(), a.generation()), (70, 1));
    let b = entities.create();
    assert_eq!(b.index(), 100);
}

#[test]
fn each_kill_raises_the_generation() {
    let mut entities = Entities::default();
    let mut e = entities.create();
    for g in 0..5u32 {
        assert_eq!(e.generation(), g);
        entities.kill(e);
        entities.clear_killed();
        let next = entities.create();
        assert_eq!(next.index(), 0);
        assert_eq!(next.generation(), g + 1);
        assert_ne!(next, e);
        e = next;
    }
}

#[test]
fn kill_of_dead_identifier_changes_nothing() {
    let mut entities = Entities::default();
    let e0 = entities.create();
    entities.kill(e0);
    assert_eq!(*entities.killed(), vec![e0]);
    entities.kill(e0);
    assert_eq!(*entities.killed(), vec![e0]);
    assert!(!entities.bitset().bit_test(0));
    entities.clear_killed();
    let e1 = entities.create();
    assert_eq!(e1.generation(), 1);
    entities.kill(e0);
    assert!(entities.is_alive(e1));
    assert_eq!(*entities.killed(), vec![]);
}

#[test]
fn clear_killed_twice_leaves_list_empty() {
    let mut entities = Entities::default();
    let e0 = entities.create();
    let e1 = entities.create();
    entities.kill(e0);
    entities.kill(e1);
    assert_eq!(*entities.killed(), vec![e0, e1]);
    entities.clear_killed();
    assert!(entities.killed().is_empty());
    entities.clear_killed();
    assert!(entities.killed().is_empty());
    assert!(!entities.is_alive(e0));
}

#[test]
fn entity_iterator_yields_live_identifiers_below_mark() {
    let mut entities = Entities::default();
    let es: Vec<Entity> = (0..5).map(|_| entities.create()).collect();
    entities.kill(es[2]);
    let mut driving = entity_component::create_bitset();
    driving.bit_not();
    let mut it = entities.iter_with_bitset(Rc::new(driving));
    let mut seen = vec![];
    while let Some(item) = it.next() {
        seen.push(item);
    }
    assert_eq!(seen, vec![Some(es[0]), Some(es[1]), None, Some(es[3]), Some(es[4])]);
}

#[test]
fn capacity_constant_is_block_aligned() {
    assert_eq!(BITSET_SIZE % entity_component::BLOCK_BITS, 0);
    assert_eq!(BITSET_SIZE / entity_component::BLOCK_BITS, entity_component::BITSET_SLICE_COUNT);
}
