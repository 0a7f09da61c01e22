use entity_component::{create_bitset, Components, Entities};
use std::rc::Rc;

#[derive(Debug, Clone, PartialEq, Eq)]
struct A;

#[test]
fn create_remove_components() {
    let mut entities = Entities::default();
    let e1 = entities.create();
    let e2 = entities.create();

    let mut storage = Components::<A>::default();
    storage.insert(e1, A);
    storage.insert(e2, A);
    assert!(storage.get(e1).is_some());
    storage.remove(e1);
    assert!(storage.get(e1).is_none());
    assert_eq!(storage.iter().into_iter().cloned().collect::<Vec<_>>(), vec![A])
}

#[test]
fn insert_get_remove_round_trip() {
    let mut entities = Entities::default();
    let e = entities.create();
    let mut t = Components::<u64>::default();
    assert_eq!(t.insert(e, 5), None);
    assert_eq!(t.get(e), Some(&5));
    assert_eq!(t.insert(e, 6), Some(5));
    assert_eq!(t.get(e), Some(&6));
    assert_eq!(t.remove(e), Some(6));
    assert_eq!(t.get(e), None);
    assert_eq!(t.remove(e), None);
    assert!(!t.bitset().bit_test(0));
}

#[test]
fn get_mut_changes_the_stored_value() {
    let mut entities = Entities::default();
    let e = entities.create();
    let f = entities.create();
    let mut t = Components::<u64>::default();
    t.insert(e, 1);
    *t.get_mut(e).unwrap() += 10;
    assert_eq!(t.get(e), Some(&11));
    assert!(t.get_mut(f).is_none());
}

#[test]
fn sparse_insert_leaves_gaps_empty() {
    let mut entities = Entities::default();
    let es: Vec<_> = (0..50).map(|_| entities.create()).collect();
    let mut t = Components::<u32>::default();
    t.insert(es[40], 40);
    t.insert(es[3], 3);
    assert_eq!(t.get(es[10]), None);
    assert_eq!(t.iter().into_iter().cloned().collect::<Vec<_>>(), vec![3, 40]);
    assert!(t.bitset().bit_test(40));
    assert!(!t.bitset().bit_test(41));
}

#[test]
fn iter_mut_visits_every_present_value() {
    let mut entities = Entities::default();
    let es: Vec<_> = (0..6).map(|_| entities.create()).collect();
    let mut t = Components::<u32>::default();
    t.insert(es[1], 1);
    t.insert(es[4], 4);
    {
        let mut it = t.iter_mut();
        while let Some(slot) = it.next() {
            *slot.unwrap() *= 100;
        }
    }
    assert_eq!(t.iter().into_iter().cloned().collect::<Vec<_>>(), vec![100, 400]);
}

#[test]
fn bitset_iterator_yields_popcount_below_bound() {
    let mut entities = Entities::default();
    let es: Vec<_> = (0..20).map(|_| entities.create()).collect();
    let mut t = Components::<u32>::default();
    t.insert(es[9], 9);
    // bound is 10: driving bits at 2, 9, 15 give two visits (2 and 9)
    let mut driving = create_bitset();
    driving.bit_set(2);
    driving.bit_set(9);
    driving.bit_set(15);
    let mut it = t.iter_with_bitset(Rc::new(driving));
    assert_eq!(it.next(), Some(None));
    assert_eq!(it.next(), Some(Some(&9)));
    assert_eq!(it.next(), None);
    assert_eq!(it.next(), None);
}

#[test]
fn mutable_bitset_iterator_lends_each_slot_once() {
    let mut entities = Entities::default();
    let es: Vec<_> = (0..8).map(|_| entities.create()).collect();
    let mut t = Components::<u32>::default();
    for (k, e) in es.iter().enumerate() {
        t.insert(*e, k as u32);
    }
    let mut driving = create_bitset();
    driving.bit_set(1);
    driving.bit_set(6);
    {
        let mut it = t.iter_mut_with_bitset(Rc::new(driving));
        let mut n = 0;
        while let Some(slot) = it.next() {
            *slot.unwrap() += 1000;
            n += 1;
        }
        assert_eq!(n, 2);
    }
    assert_eq!(
        t.iter().into_iter().cloned().collect::<Vec<_>>(),
        vec![0, 1001, 2, 3, 4, 5, 1006, 7]
    );
}
