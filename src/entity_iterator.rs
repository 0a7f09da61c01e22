use crate::bitset::{lemma_visits_front, visits, BitSetVec};
use crate::entity::Entity;
use std::rc::Rc;
use vstd::prelude::*;

verus! {

/// Iterates over slot indices where a driving bitset is set, below the
/// allocator's high-water mark. Each step yields the slot's current
/// identifier when the slot is allocated, and `None` otherwise.
///
/// The bound is exclusive: the slot at the mark itself has never been
/// allocated and is not visited, so the last index visited is the mark
/// minus one, as for the attribute-table iterators.
pub struct EntityIterator<'a> {
    current_id: usize,
    max_id: usize,
    entities: &'a BitSetVec,
    generations: &'a Vec<u32>,
    bitset: Rc<BitSetVec>,
}

impl<'a> EntityIterator<'a> {
    /// An iterator driven by `bitset` over the indices below `max_id`,
    /// reading liveness from `entities` and generations from `generations`.
    pub(crate) fn new(
        max_id: usize,
        entities: &'a BitSetVec,
        generations: &'a Vec<u32>,
        bitset: Rc<BitSetVec>,
    ) -> (r: Self)
        requires
            max_id <= entities@.len(),
            max_id <= generations@.len(),
            max_id <= bitset@.len(),
            max_id <= u32::MAX,
        ensures
            r.wf(),
            r.remaining() == visits(bitset@, 0, max_id as int),
            r.alive_view() == entities@,
            r.generations_view() == generations@,
    {
        EntityIterator { current_id: 0, max_id, entities, generations, bitset }
    }

    /// The indices still to be visited, ascending.
    pub closed spec fn remaining(&self) -> Seq<int> {
        visits(self.bitset@, self.current_id as int, self.max_id as int)
    }

    /// The liveness bitset being read.
    pub closed spec fn alive_view(&self) -> Seq<bool> {
        self.entities@
    }

    /// The slot generations being read.
    pub closed spec fn generations_view(&self) -> Seq<u32> {
        self.generations@
    }

    /// The iterator's internal invariant.
    pub closed spec fn wf(&self) -> bool {
        &&& self.max_id <= self.entities@.len()
        &&& self.max_id <= self.generations@.len()
        &&& self.max_id <= self.bitset@.len()
        &&& self.max_id <= u32::MAX
        &&& self.current_id <= self.max_id
    }

    /// Visits the next index whose driving bit is set and yields the current
    /// identifier of that slot if it is allocated, or returns `None` once the
    /// bound is reached.
    pub fn next(&mut self) -> (r: Option<Option<Entity>>)
        requires
            old(self).wf(),
        ensures
            final(self).wf(),
            final(self).alive_view() == old(self).alive_view(),
            final(self).generations_view() == old(self).generations_view(),
            old(self).remaining().len() == 0 ==> r is None && final(self).remaining() == old(
                self,
            ).remaining(),
            old(self).remaining().len() > 0 ==> {
                let i = old(self).remaining()[0];
                &&& r is Some
                &&& final(self).remaining() == old(self).remaining().drop_first()
                &&& r->0 == if old(self).alive_view()[i] {
                    Some(Entity(i as u32, old(self).generations_view()[i]))
                } else {
                    None
                }
            },
    {
        let ghost rem0 = visits(self.bitset@, self.current_id as int, self.max_id as int);
        while self.current_id < self.max_id && !self.bitset.bit_test(self.current_id)
            invariant
                self.wf(),
                self.entities == old(self).entities,
                self.generations == old(self).generations,
                self.max_id == old(self).max_id,
                self.bitset == old(self).bitset,
                rem0 == visits(self.bitset@, self.current_id as int, self.max_id as int),
            decreases self.max_id - self.current_id,
        {
            proof {
                lemma_visits_front(self.bitset@, self.current_id as int, self.max_id as int);
            }
            self.current_id = self.current_id + 1;
        }
        if self.current_id < self.max_id {
            proof {
                lemma_visits_front(self.bitset@, self.current_id as int, self.max_id as int);
            }
            let i = self.current_id;
            self.current_id = self.current_id + 1;
            assert(visits(self.bitset@, self.current_id as int, self.max_id as int) =~= rem0.drop_first());
            if self.entities.bit_test(i) {
                Some(Some(Entity::new(i as u32, self.generations[i])))
            } else {
                Some(None)
            }
        } else {
            None
        }
    }
}

} // verus!
