use crate::bitset::{lemma_visits_front, visits, BitSetVec};
use std::rc::Rc;
use vstd::prelude::*;

verus! {

/// Iterates over the slots of a table at the indices where a driving bitset
/// is set. Each step yields the slot's value, or `None` when the slot is
/// empty; the iteration ends at the table's bound.
pub struct ComponentIterator<'a, T> {
    current_id: usize,
    max_id: usize,
    storage: &'a Vec<Option<T>>,
    bitset: Rc<BitSetVec>,
}

impl<'a, T> ComponentIterator<'a, T> {
    /// An iterator over `storage` driven by `bitset`, bounded by the length
    /// of `storage`.
    pub(crate) fn new(storage: &'a Vec<Option<T>>, bitset: Rc<BitSetVec>) -> (r: Self)
        requires
            storage@.len() <= bitset@.len(),
        ensures
            r.wf(),
            r.remaining() == visits(bitset@, 0, storage@.len() as int),
            r.storage_view() == storage@,
    {
        ComponentIterator { current_id: 0, max_id: storage.len(), storage, bitset }
    }

    /// The indices still to be visited, ascending.
    pub closed spec fn remaining(&self) -> Seq<int> {
        visits(self.bitset@, self.current_id as int, self.max_id as int)
    }

    /// The slots being read.
    pub closed spec fn storage_view(&self) -> Seq<Option<T>> {
        self.storage@
    }

    /// The iterator's internal invariant.
    pub closed spec fn wf(&self) -> bool {
        &&& self.max_id <= self.storage@.len()
        &&& self.max_id <= self.bitset@.len()
        &&& self.current_id <= self.max_id
    }

    /// Visits the next index whose driving bit is set and yields that slot,
    /// or returns `None` once the bound is reached.
    pub fn next(&mut self) -> (r: Option<Option<&'a T>>)
        requires
            old(self).wf(),
        ensures
            final(self).wf(),
            final(self).storage_view() == old(self).storage_view(),
            old(self).remaining().len() == 0 ==> r is None && final(self).remaining() == old(
                self,
            ).remaining(),
            old(self).remaining().len() > 0 ==> {
                &&& r is Some
                &&& final(self).remaining() == old(self).remaining().drop_first()
                &&& (r->0 is Some <==> old(self).storage_view()[old(self).remaining()[0]] is Some)
                &&& r->0 is Some ==> old(self).storage_view()[old(self).remaining()[0]] == Some(
                    *r->0->0,
                )
            },
    {
        let ghost rem0 = visits(self.bitset@, self.current_id as int, self.max_id as int);
        while self.current_id < self.max_id && !self.bitset.bit_test(self.current_id)
            invariant
                self.wf(),
                self.storage == old(self).storage,
                self.max_id == old(self).max_id,
                self.bitset == old(self).bitset,
                rem0 == visits(self.bitset@, self.current_id as int, self.max_id as int),
            decreases self.max_id - self.current_id,
        {
            proof {
                lemma_visits_front(self.bitset@, self.current_id as int, self.max_id as int);
            }
            self.current_id = self.current_id + 1;
        }
        if self.current_id < self.max_id {
            proof {
                lemma_visits_front(self.bitset@, self.current_id as int, self.max_id as int);
            }
            let r = self.storage[self.current_id].as_ref();
            self.current_id = self.current_id + 1;
            assert(visits(self.bitset@, self.current_id as int, self.max_id as int) =~= rem0.drop_first());
            Some(r)
        } else {
            None
        }
    }
}

/// Iterates mutably over the slots of a table at the indices where a driving
/// bitset is set. Each step lends out the slot's value for mutation, or yields
/// `None` when the slot is empty; the iteration ends at the table's bound.
/// Every index is visited at most once, and one reference is out at a time.
pub struct ComponentIteratorMut<'a, T> {
    current_id: usize,
    max_id: usize,
    storage: &'a mut Vec<Option<T>>,
    bitset: Rc<BitSetVec>,
}

impl<'a, T> ComponentIteratorMut<'a, T> {
    /// A mutable iterator over `storage` driven by `bitset`, bounded by the
    /// length of `storage`.
    pub(crate) fn new(storage: &'a mut Vec<Option<T>>, bitset: Rc<BitSetVec>) -> (r: Self)
        requires
            old(storage)@.len() <= bitset@.len(),
        ensures
            r.wf(),
            r.remaining() == visits(bitset@, 0, old(storage)@.len() as int),
            r.storage_view() == old(storage)@,
    {
        let max_id = storage.len();
        ComponentIteratorMut { current_id: 0, max_id, storage, bitset }
    }

    /// The indices still to be visited, ascending.
    pub closed spec fn remaining(&self) -> Seq<int> {
        visits(self.bitset@, self.current_id as int, self.max_id as int)
    }

    /// The slots being iterated over, as they stand now.
    pub closed spec fn storage_view(&self) -> Seq<Option<T>> {
        self.storage@
    }

    /// The iterator's internal invariant.
    pub closed spec fn wf(&self) -> bool {
        &&& self.max_id <= self.storage@.len()
        &&& self.max_id <= self.bitset@.len()
        &&& self.current_id <= self.max_id
    }

    /// Visits the next index whose driving bit is set and lends out that
    /// slot's value, or returns `None` once the bound is reached.
    pub fn next(&mut self) -> (r: Option<Option<&mut T>>)
        requires
            old(self).wf(),
        ensures
            final(self).wf(),
            old(self).remaining().len() == 0 ==> r is None && final(self).remaining() == old(
                self,
            ).remaining() && final(self).storage_view() == old(self).storage_view(),
            old(self).remaining().len() > 0 ==> {
                &&& r is Some
                &&& final(self).remaining() == old(self).remaining().drop_first()
                &&& (r->0 is Some <==> old(self).storage_view()[old(self).remaining()[0]] is Some)
                &&& r->0 is Some ==> {
                    &&& old(self).storage_view()[old(self).remaining()[0]] == Some(*r->0->0)
                    &&& final(self).storage_view() == old(self).storage_view().update(
                        old(self).remaining()[0],
                        Some(*final(r->0->0)),
                    )
                }
                &&& r->0 is None ==> final(self).storage_view() == old(self).storage_view()
            },
    {
        let ghost rem0 = visits(self.bitset@, self.current_id as int, self.max_id as int);
        while self.current_id < self.max_id && !self.bitset.bit_test(self.current_id)
            invariant
                self.wf(),
                self.storage@ == old(self).storage@,
                self.max_id == old(self).max_id,
                self.bitset == old(self).bitset,
                rem0 == visits(self.bitset@, self.current_id as int, self.max_id as int),
            decreases self.max_id - self.current_id,
        {
            proof {
                lemma_visits_front(self.bitset@, self.current_id as int, self.max_id as int);
            }
            self.current_id = self.current_id + 1;
        }
        if self.current_id < self.max_id {
            proof {
                lemma_visits_front(self.bitset@, self.current_id as int, self.max_id as int);
            }
            let i = self.current_id;
            self.current_id = self.current_id + 1;
            assert(visits(self.bitset@, self.current_id as int, self.max_id as int) =~= rem0.drop_first());
            Some(self.storage[i].as_mut())
        } else {
            None
        }
    }
}

} // verus!
