use crate::bitset::{create_bitset, lemma_visits_count, popcount, visits, BitSetVec, BITSET_SIZE};
use crate::component_iterator::{ComponentIterator, ComponentIteratorMut};
use std::rc::Rc;
use crate::entity::Entity;
use vstd::prelude::*;

verus! {

/// The slots of a table after storing `v` at index `i`: the array grows by
/// exactly enough empty slots to reach `i` when it is too short.
pub open spec fn slots_after_insert<T>(slots: Seq<Option<T>>, i: int, v: T) -> Seq<Option<T>> {
    if i < slots.len() {
        slots.update(i, Some(v))
    } else {
        slots + Seq::new((i - slots.len()) as nat, |k: int| None::<T>) + seq![Some(v)]
    }
}

/// The values present in `slots`, in ascending index order.
pub open spec fn present_values<T>(slots: Seq<Option<T>>) -> Seq<T>
    decreases slots.len(),
{
    if slots.len() == 0 {
        Seq::empty()
    } else {
        let rest = present_values(slots.drop_last());
        match slots.last() {
            Some(v) => rest.push(v),
            None => rest,
        }
    }
}

/// Holds the attributes of one type, indexed by identifier index.
///
/// Whether an identifier is alive is not checked here: that is the business
/// of `Entities`.
pub struct Components<T> {
    bitset: BitSetVec,
    components: Vec<Option<T>>,
}

impl<T> Default for Components<T> {
    /// An empty table.
    fn default() -> (r: Components<T>)
        ensures
            r.wf(),
            r.slots() == Seq::<Option<T>>::empty(),
            r.presence() == Seq::new(BITSET_SIZE as nat, |i: int| false),
    {
        let bitset = create_bitset();
        let components: Vec<Option<T>> = Vec::new();
        let r = Components { bitset, components };
        assert(r.bitset@ =~= Seq::new(BITSET_SIZE as nat, |i: int| false));
        r
    }
}

impl<T> Components<T> {
    /// The presence bitset: bit `i` is set when slot `i` holds a value.
    pub closed spec fn presence(&self) -> Seq<bool> {
        self.bitset@
    }

    /// The backing array of slots. Its length is the table's bound: one past
    /// the highest index ever inserted.
    pub closed spec fn slots(&self) -> Seq<Option<T>> {
        self.components@
    }

    /// The value stored for index `i`, if any.
    pub open spec fn value_at(&self, i: int) -> Option<T> {
        if 0 <= i < self.slots().len() {
            self.slots()[i]
        } else {
            None
        }
    }

    /// The table's invariant: the presence bitset covers the whole capacity,
    /// the backing array never exceeds it, and a presence bit is set exactly
    /// when its slot holds a value.
    pub open spec fn wf(&self) -> bool {
        &&& self.presence().len() == BITSET_SIZE
        &&& self.slots().len() <= BITSET_SIZE
        &&& forall|i: int| 0 <= i < BITSET_SIZE ==> (#[trigger] self.presence()[i] <==> self.value_at(i) is Some)
    }


    /// Stores `component` for `entity`'s index and returns the value it
    /// replaces, if any.
    pub fn insert(&mut self, entity: Entity, component: T) -> (r: Option<T>)
        requires
            old(self).wf(),
            entity.0 < BITSET_SIZE,
        ensures
            final(self).wf(),
            r == old(self).value_at(entity.0 as int),
            r is Some <==> old(self).presence()[entity.0 as int],
            final(self).value_at(entity.0 as int) == Some(component),
            final(self).slots() == slots_after_insert(old(self).slots(), entity.0 as int, component),
            final(self).presence() == old(self).presence().update(entity.0 as int, true),
    {
        let i = entity.0 as usize;
        if self.bitset.bit_test(i) {
            let mut insertion = Some(component);
            let ghost slots0 = self.components@;
            std::mem::swap(&mut insertion, &mut self.components[i]);
            assert(self.bitset@ =~= self.bitset@.update(i as int, true));
            assert forall|j: int| 0 <= j < BITSET_SIZE implies (#[trigger] self.bitset@[j] <==> self.value_at(j) is Some) by {
                if j != i {
                    assert(self.value_at(j) == (if 0 <= j < slots0.len() { slots0[j] } else { None }));
                }
            }
            insertion
        } else {
            let ghost old_self = *self;
            self.allocate_enough(i);
            self.bitset.bit_set(i);
            self.components.set(i, Some(component));
            assert(self.components@ =~= slots_after_insert(old_self.components@, i as int, component));
            assert forall|j: int| 0 <= j < BITSET_SIZE implies (#[trigger] self.bitset@[j] <==> self.value_at(j) is Some) by {
                if j != i {
                    assert(old_self.bitset@[j] <==> old_self.value_at(j) is Some);
                }
            }
            None
        }
    }

    /// Grows the backing array with empty slots until index `until` exists.
    fn allocate_enough(&mut self, until: usize)
        requires
            until < BITSET_SIZE,
        ensures
            final(self).bitset == old(self).bitset,
            final(self).components@ == if until < old(self).components@.len() {
                old(self).components@
            } else {
                old(self).components@ + Seq::new(
                    (until + 1 - old(self).components@.len()) as nat,
                    |k: int| None::<T>,
                )
            },
    {
        if self.components.len() <= until {
            let ghost start = self.components@;
            let qty = (until - self.components.len()) + 1;
            let mut n: usize = 0;
            while n < qty
                invariant
                    n <= qty,
                    self.bitset == old(self).bitset,
                    start == old(self).components@,
                    self.components@ == start + Seq::new(n as nat, |k: int| None::<T>),
                decreases qty - n,
            {
                self.components.push(None);
                n = n + 1;
                assert(self.components@ =~= start + Seq::new(n as nat, |k: int| None::<T>));
            }
        }
    }

    /// The value stored for `entity`'s index, if its presence bit is set.
    pub fn get(&self, entity: Entity) -> (r: Option<&T>)
        requires
            self.wf(),
            entity.0 < BITSET_SIZE,
        ensures
            r is Some <==> self.value_at(entity.0 as int) is Some,
            r is Some <==> self.presence()[entity.0 as int],
            r is Some ==> self.value_at(entity.0 as int) == Some(*r->0),
    {
        let i = entity.0 as usize;
        if self.bitset.bit_test(i) {
            self.components[i].as_ref()
        } else {
            None
        }
    }

    /// A mutable reference to the value stored for `entity`'s index, if its
    /// presence bit is set.
    pub fn get_mut(&mut self, entity: Entity) -> (r: Option<&mut T>)
        requires
            old(self).wf(),
            entity.0 < BITSET_SIZE,
        ensures
            r is Some <==> old(self).value_at(entity.0 as int) is Some,
            r is Some <==> old(self).presence()[entity.0 as int],
            r is Some ==> {
                &&& old(self).value_at(entity.0 as int) == Some(*r->0)
                &&& final(self).slots() == old(self).slots().update(entity.0 as int, Some(*final(r->0)))
                &&& final(self).presence() == old(self).presence()
            },
            r is None ==> *final(self) == *old(self),
    {
        let i = entity.0 as usize;
        if self.bitset.bit_test(i) {
            self.components[i].as_mut()
        } else {
            None
        }
    }

    /// Removes the value stored for `entity`'s index and returns it. The slot
    /// is left empty; the backing array keeps its length.
    pub fn remove(&mut self, entity: Entity) -> (r: Option<T>)
        requires
            old(self).wf(),
            entity.0 < BITSET_SIZE,
        ensures
            final(self).wf(),
            r == old(self).value_at(entity.0 as int),
            r is Some <==> old(self).presence()[entity.0 as int],
            final(self).value_at(entity.0 as int) is None,
            final(self).presence() == old(self).presence().update(entity.0 as int, false),
            r is Some ==> final(self).slots() == old(self).slots().update(entity.0 as int, None),
            r is None ==> final(self).slots() == old(self).slots(),
    {
        let idx = entity.0 as usize;
        if self.bitset.bit_test(idx) {
            let ghost old_self = *self;
            self.bitset.bit_reset(idx);
            let mut ret: Option<T> = None;
            std::mem::swap(&mut ret, &mut self.components[idx]);
            assert forall|j: int| 0 <= j < BITSET_SIZE implies (#[trigger] self.bitset@[j] <==> self.value_at(j) is Some) by {
                if j != idx {
                    assert(old_self.bitset@[j] <==> old_self.value_at(j) is Some);
                }
            }
            ret
        } else {
            assert(self.bitset@ =~= self.bitset@.update(idx as int, false));
            None
        }
    }

    /// The values present in the table, in ascending index order.
    pub fn iter(&self) -> (r: Vec<&T>)
        requires
            self.wf(),
        ensures
            r@.len() == present_values(self.slots()).len(),
            r@.len() == popcount(self.presence()),
            forall|k: int| 0 <= k < r@.len() ==> *#[trigger] r@[k] == present_values(self.slots())[k],
    {
        proof {
            lemma_present_count(self);
        }
        let mut r: Vec<&T> = Vec::new();
        let mut k: usize = 0;
        while k < self.components.len()
            invariant
                k <= self.components@.len(),
                r@.len() == present_values(self.components@.subrange(0, k as int)).len(),
                forall|m: int| 0 <= m < r@.len() ==> *#[trigger] r@[m] == present_values(
                    self.components@.subrange(0, k as int),
                )[m],
            decreases self.components@.len() - k,
        {
            assert(self.components@.subrange(0, k + 1).drop_last() =~= self.components@.subrange(0, k as int));
            match &self.components[k] {
                Some(v) => {
                    r.push(v);
                },
                None => {},
            }
            k = k + 1;
        }
        assert(self.components@.subrange(0, k as int) =~= self.components@);
        r
    }

    /// Iterates mutably over the values present in the table, in ascending
    /// index order: an iterator driven by the table's own presence bitset,
    /// whose every step lends out a value.
    pub fn iter_mut(&mut self) -> (r: ComponentIteratorMut<'_, T>)
        requires
            old(self).wf(),
        ensures
            r.wf(),
            r.remaining() == visits(old(self).presence(), 0, old(self).slots().len() as int),
            r.storage_view() == old(self).slots(),
            r.remaining().len() == popcount(old(self).presence()),
            forall|k: int| 0 <= k < r.remaining().len() ==> r.storage_view()[#[trigger] r.remaining()[k]] is Some,
            final(self).presence() == old(self).presence(),
    {
        let driving = Rc::new(self.bitset.duplicate());
        let ghost d = self.bitset@;
        let ghost n = self.components@.len() as int;
        proof {
            lemma_visits_count(d, n);
            assert forall|i: int| n <= i < d.len() implies !#[trigger] d[i] by {
                assert(d[i] <==> self.value_at(i) is Some);
            }
            lemma_popcount_clear_tail(d, n);
            assert forall|k: int| 0 <= k < visits(d, 0, n).len() implies self.components@[#[trigger] visits(d, 0, n)[k]] is Some by {
                let i = visits(d, 0, n)[k];
                assert(self.bitset@[i]);
            }
        }
        ComponentIteratorMut::new(&mut self.components, driving)
    }

    /// Iterates over the slots at the indices where `bitset` is set, below
    /// this table's bound; each step yields the slot's value or `None`.
    pub fn iter_with_bitset(&self, bitset: Rc<BitSetVec>) -> (r: ComponentIterator<'_, T>)
        requires
            self.wf(),
            bitset@.len() == BITSET_SIZE,
        ensures
            r.wf(),
            r.remaining() == visits(bitset@, 0, self.slots().len() as int),
            r.storage_view() == self.slots(),
    {
        ComponentIterator::new(&self.components, bitset)
    }

    /// Iterates mutably over the slots at the indices where `bitset` is set,
    /// below this table's bound; each step lends out the slot's value or
    /// yields `None`.
    pub fn iter_mut_with_bitset(&mut self, bitset: Rc<BitSetVec>) -> (r: ComponentIteratorMut<'_, T>)
        requires
            old(self).wf(),
            bitset@.len() == BITSET_SIZE,
        ensures
            r.wf(),
            r.remaining() == visits(bitset@, 0, old(self).slots().len() as int),
            r.storage_view() == old(self).slots(),
            final(self).presence() == old(self).presence(),
    {
        ComponentIteratorMut::new(&mut self.components, bitset)
    }

    /// The presence bitset, usable as an operand of a join.
    pub fn bitset(&self) -> (r: &BitSetVec)
        requires
            self.wf(),
        ensures
            r@ == self.presence(),
            r@.len() == BITSET_SIZE,
            self.slots().len() <= BITSET_SIZE,
            forall|i: int| 0 <= i < BITSET_SIZE ==> (#[trigger] r@[i] <==> self.value_at(i) is Some),
    {
        &self.bitset
    }
}

/// Table round trip: after `insert(id, v)` the table holds `v` for `id`'s
/// index; after a `remove` of that index it holds nothing there.
pub proof fn lemma_table_round_trip<T>(t0: Components<T>, t1: Components<T>, t2: Components<T>, i: int, v: T)
    requires
        0 <= i,
        t1.slots() == slots_after_insert(t0.slots(), i, v),
        t2.slots() == t1.slots().update(i, None) || (t2.slots() == t1.slots() && t1.value_at(i) is None),
    ensures
        t1.value_at(i) == Some(v),
        t2.value_at(i) is None,
{
    if i >= t0.slots().len() {
        let pad = Seq::new((i - t0.slots().len()) as nat, |k: int| None::<T>);
        assert((t0.slots() + pad + seq![Some(v)])[i] == Some(v));
    }
}

/// A bit sequence whose bits from `k` on are clear has as many set bits as
/// its first `k` bits.
proof fn lemma_popcount_clear_tail(s: Seq<bool>, k: int)
    requires
        0 <= k <= s.len(),
        forall|i: int| k <= i < s.len() ==> !#[trigger] s[i],
    ensures
        popcount(s) == popcount(s.subrange(0, k)),
    decreases s.len(),
{
    if s.len() > k {
        lemma_popcount_clear_tail(s.drop_last(), k);
        assert(s.drop_last().subrange(0, k) =~= s.subrange(0, k));
    } else {
        assert(s.subrange(0, k) =~= s);
    }
}

/// The first `k` presence bits count the values held in the first `k` slots.
proof fn lemma_present_prefix<T>(c: &Components<T>, k: int)
    requires
        c.wf(),
        0 <= k <= c.slots().len(),
    ensures
        popcount(c.presence().subrange(0, k)) == present_values(c.slots().subrange(0, k)).len(),
    decreases k,
{
    if k > 0 {
        lemma_present_prefix(c, k - 1);
        assert(c.presence().subrange(0, k).drop_last() =~= c.presence().subrange(0, k - 1));
        assert(c.slots().subrange(0, k).drop_last() =~= c.slots().subrange(0, k - 1));
        assert(c.presence()[k - 1] <==> c.value_at(k - 1) is Some);
    } else {
        assert(c.slots().subrange(0, 0) =~= Seq::<Option<T>>::empty());
    }
}

/// A table holds as many values as its presence bitset has set bits.
pub proof fn lemma_present_count<T>(c: &Components<T>)
    requires
        c.wf(),
    ensures
        present_values(c.slots()).len() == popcount(c.presence()),
{
    let n = c.slots().len() as int;
    assert forall|i: int| n <= i < c.presence().len() implies !#[trigger] c.presence()[i] by {
        assert(c.presence()[i] <==> c.value_at(i) is Some);
    }
    lemma_popcount_clear_tail(c.presence(), n);
    lemma_present_prefix(c, n);
    assert(c.slots().subrange(0, n) =~= c.slots());
}

} // verus!
