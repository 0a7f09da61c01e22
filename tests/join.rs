use entity_component::{create_bitset, Components, Entities, Join};

struct A;
struct B;
struct C;

#[test]
fn join_components() {
    let comp1 = Components::<A>::default();
    let comp2 = Components::<B>::default();
    let mut join = Join::new(comp1.bitset(), false);
    join.and(comp2.bitset());
    let bitset = join.bitset();
    let mut it1 = comp1.iter_with_bitset(bitset.clone());
    let mut it2 = comp2.iter_with_bitset(bitset.clone());
    while let (Some(_), Some(_)) = (it1.next(), it2.next()) {}
}

#[test]
fn complex_join() {
    let mut storage1 = Components::<A>::default();
    let storage2 = Components::<B>::default();
    let storage3 = Components::<C>::default();
    let mut count = 0;
    let bitset = {
        let mut join = Join::new(storage1.bitset(), false);
        join.and(storage2.bitset());
        join.or_not(storage3.bitset());
        join.bitset()
    };
    let mut it1 = storage1.iter_mut_with_bitset(bitset.clone());
    let mut it2 = storage2.iter_with_bitset(bitset.clone());
    let mut it3 = storage3.iter_with_bitset(bitset.clone());
    while let (Some(_a), Some(_b), Some(_c)) = (it1.next(), it2.next(), it3.next()) {
        count += 1;
    }
    assert_eq!(count, 0);
}

fn populate() -> (Entities, Components<u32>, Components<u32>) {
    let mut entities = Entities::default();
    let mut a = Components::<u32>::default();
    let mut b = Components::<u32>::default();
    for i in 0..10000u32 {
        let e = entities.create();
        if i % 5 == 0 {
            a.insert(e, i);
        }
        if i % 6 == 0 {
            b.insert(e, i);
        }
    }
    (entities, a, b)
}

#[test]
fn join_and_yields_multiples_of_thirty() {
    let (entities, a, b) = populate();
    let mut join = Join::new(entities.bitset(), false);
    join.and(a.bitset());
    join.and(b.bitset());
    let bitset = join.bitset();
    let mut ie = entities.iter_with_bitset(bitset.clone());
    let mut ia = a.iter_with_bitset(bitset.clone());
    let mut ib = b.iter_with_bitset(bitset.clone());
    let mut count = 0;
    while let (Some(e), Some(x), Some(y)) = (ie.next(), ia.next(), ib.next()) {
        let e = e.unwrap();
        assert_eq!(e.index() % 30, 0);
        assert_eq!(*x.unwrap(), e.index());
        assert_eq!(*y.unwrap(), e.index());
        count += 1;
    }
    assert_eq!(count, 334);
}

#[test]
fn join_and_not_yields_multiples_of_five_only() {
    let (_entities, a, b) = populate();
    let mut join = Join::new(a.bitset(), false);
    join.and_not(b.bitset());
    let bitset = join.bitset();
    let mut ia = a.iter_with_bitset(bitset.clone());
    let mut ib = b.iter_with_bitset(bitset.clone());
    let mut seen = vec![];
    while let (Some(x), Some(y)) = (ia.next(), ib.next()) {
        assert!(y.is_none());
        seen.push(*x.unwrap());
    }
    let expected: Vec<u32> = (0..9996u32).filter(|i| i % 5 == 0 && i % 6 != 0).collect();
    assert_eq!(seen, expected);
}

#[test]
fn join_mutates_through_mutable_operand() {
    let (_entities, mut a, b) = populate();
    let bitset = {
        let mut join = Join::new(a.bitset(), false);
        join.and(b.bitset());
        join.bitset()
    };
    {
        let mut ia = a.iter_mut_with_bitset(bitset.clone());
        let mut ib = b.iter_with_bitset(bitset.clone());
        while let (Some(x), Some(y)) = (ia.next(), ib.next()) {
            *x.unwrap() += *y.unwrap();
        }
    }
    let mut e = Entities::default();
    let ids: Vec<_> = (0..31).map(|_| e.create()).collect();
    assert_eq!(a.get(ids[30]), Some(&60));
    assert_eq!(a.get(ids[5]), Some(&5));
}

#[test]
fn join_or_and_negated_first_operand() {
    let (_entities, a, b) = populate();
    let mut join = Join::new(a.bitset(), false);
    join.or(b.bitset());
    let or = join.bitset();
    assert!(or.bit_test(5) && or.bit_test(6) && or.bit_test(0));
    assert!(!or.bit_test(7));

    let mut neg = Join::new(a.bitset(), true);
    neg.and(b.bitset());
    let only_b = neg.bitset();
    assert!(only_b.bit_test(6) && !only_b.bit_test(30) && !only_b.bit_test(5));

    let mut ornot = Join::new(a.bitset(), false);
    ornot.or_not(b.bitset());
    let r = ornot.bitset();
    assert!(r.bit_test(7) && r.bit_test(5) && !r.bit_test(6) && r.bit_test(30));
}

#[test]
fn bitset_operations() {
    let mut x = create_bitset();
    let mut y = create_bitset();
    x.bit_set(3);
    x.bit_set(40);
    y.bit_set(40);
    y.bit_set(100);
    assert!(x.bit_test(3) && !x.bit_test(4));
    let mut and = x.duplicate();
    and.bit_and(&y);
    assert!(and.bit_test(40) && !and.bit_test(3) && !and.bit_test(100));
    let mut or = x.duplicate();
    or.bit_or(&y);
    assert!(or.bit_test(3) && or.bit_test(40) && or.bit_test(100));
    let mut diff = x.duplicate();
    diff.bit_andnot(&y);
    assert!(diff.bit_test(3) && !diff.bit_test(40));
    x.bit_reset(3);
    assert!(!x.bit_test(3) && x.bit_test(40));
    let mut n = create_bitset();
    n.bit_not();
    assert!(n.all_set_in_block(0) && n.all_set_in_block(5));
    n.bit_reset(33);
    assert!(n.all_set_in_block(0) && !n.all_set_in_block(1));
    assert!(!x.all_set_in_block(1));
}
