use crate::bitset::{create_bitset, visits, BitSetVec, BITSET_SIZE, BITSET_SLICE_COUNT, BLOCK_BITS};
use crate::entity::Entity;
use crate::entity_iterator::EntityIterator;
use std::rc::Rc;
use vstd::prelude::*;

verus! {

/// Whether some identifier of `killed` has slot index `i`.
pub open spec fn in_killed(killed: Seq<Entity>, i: int) -> bool {
    exists|k: int| 0 <= k < killed.len() && killed[k].0 as int == i
}

/// Slot `i` may be handed out by `create`: it is free and not waiting in the
/// list of identifiers killed since the last clear.
pub open spec fn reusable(alive: Seq<bool>, killed: Seq<Entity>, i: int) -> bool {
    !alive[i] && !in_killed(killed, i)
}

/// Slot `i` is the lowest slot that `create` may hand out.
pub open spec fn lowest_reusable(alive: Seq<bool>, killed: Seq<Entity>, i: int) -> bool {
    &&& 0 <= i < BITSET_SIZE
    &&& reusable(alive, killed, i)
    &&& forall|j: int| 0 <= j < i ==> !reusable(alive, killed, j)
}

/// Some slot may still be handed out by `create`.
pub open spec fn has_reusable(alive: Seq<bool>, killed: Seq<Entity>) -> bool {
    exists|i: int| 0 <= i < BITSET_SIZE && reusable(alive, killed, i)
}

/// The allocator of identifiers.
///
/// It holds the liveness bitset, the current generation of every slot, and
/// the identifiers killed since the last call to `clear_killed`, so that an
/// outside coordinator can remove their attributes from every table.
pub struct Entities {
    alive: BitSetVec,
    generation: Vec<u32>,
    killed: Vec<Entity>,
    /// One past the highest slot ever handed out.
    next_id: usize,
    /// Set when a slot below `next_id` may be free: `create` then scans the
    /// bitset instead of appending at `next_id`.
    has_deleted: bool,
}

impl Default for Entities {
    /// An allocator with no slot allocated, every generation 0, and an empty
    /// list of killed identifiers.
    fn default() -> (r: Entities)
        ensures
            r.wf(),
            r.alive_bits() == Seq::new(BITSET_SIZE as nat, |i: int| false),
            r.generations() == Seq::new(BITSET_SIZE as nat, |i: int| 0u32),
            r.killed_list() == Seq::<Entity>::empty(),
            r.high_water_mark() == 0,
    {
        let alive = create_bitset();
        let generation: Vec<u32> = vec![0u32; BITSET_SIZE];
        let r = Entities { alive, generation, killed: Vec::new(), next_id: 0, has_deleted: false };
        assert(r.alive@ =~= Seq::new(BITSET_SIZE as nat, |i: int| false));
        assert(r.generation@ =~= Seq::new(BITSET_SIZE as nat, |i: int| 0u32));
        r
    }
}

impl Entities {
    /// The liveness bitset: bit `i` is set when slot `i` is allocated.
    pub closed spec fn alive_bits(&self) -> Seq<bool> {
        self.alive@
    }

    /// One past the highest slot ever allocated.
    pub closed spec fn high_water_mark(&self) -> int {
        self.next_id as int
    }

    /// The current generation of every slot.
    pub closed spec fn generations(&self) -> Seq<u32> {
        self.generation@
    }

    /// The identifiers killed since the last clear, in the order of the kills.
    pub closed spec fn killed_list(&self) -> Seq<Entity> {
        self.killed@
    }

    /// Whether `e` is the current identifier of an allocated slot.
    pub open spec fn alive_spec(&self, e: Entity) -> bool {
        &&& self.alive_bits()[e.0 as int]
        &&& self.generations()[e.0 as int] == e.1
    }

    /// The allocator's invariant: bitset and generations cover the whole
    /// capacity, no slot at or above the high-water mark is allocated, and
    /// every identifier in the killed list lies below the mark on a free slot.
    pub open spec fn wf(&self) -> bool {
        &&& self.alive_bits().len() == BITSET_SIZE
        &&& self.generations().len() == BITSET_SIZE
        &&& 0 <= self.high_water_mark() <= BITSET_SIZE
        &&& forall|i: int| self.high_water_mark() <= i < BITSET_SIZE ==> !#[trigger] self.alive_bits()[i]
        &&& forall|k: int| 0 <= k < self.killed_list().len() ==> {
            &&& (#[trigger] self.killed_list()[k]).0 < self.high_water_mark()
            &&& !self.alive_bits()[self.killed_list()[k].0 as int]
        }
        &&& self.append_path_ok()
    }

    /// When the dirty flag is clear, every slot below the high-water mark is
    /// allocated, so `create` may append at the mark.
    pub closed spec fn append_path_ok(&self) -> bool {
        !self.has_deleted ==> forall|i: int| 0 <= i < self.next_id ==> #[trigger] self.alive@[i]
    }


    /// Whether some identifier of the killed list has slot index `i`.
    fn killed_contains(&self, i: usize) -> (r: bool)
        ensures
            r == in_killed(self.killed@, i as int),
    {
        let mut k: usize = 0;
        while k < self.killed.len()
            invariant
                k <= self.killed@.len(),
                forall|m: int| 0 <= m < k ==> self.killed@[m].0 as int != i as int,
            decreases self.killed@.len() - k,
        {
            if self.killed[k].0 as usize == i {
                return true;
            }
            k = k + 1;
        }
        false
    }

    /// Allocates the lowest free slot that is not in the killed list and
    /// returns its identifier, with the slot's current generation.
    ///
    /// A slot freed by `kill` is not handed out again while its identifier
    /// waits in the killed list. Running out of slots is a capacity error,
    /// excluded by the precondition.
    pub fn create(&mut self) -> (r: Entity)
        requires
            old(self).wf(),
            has_reusable(old(self).alive_bits(), old(self).killed_list()),
        ensures
            final(self).wf(),
            lowest_reusable(old(self).alive_bits(), old(self).killed_list(), r.0 as int),
            r.1 == old(self).generations()[r.0 as int],
            final(self).alive_bits() == old(self).alive_bits().update(r.0 as int, true),
            final(self).generations() == old(self).generations(),
            final(self).killed_list() == old(self).killed_list(),
            final(self).high_water_mark() == if r.0 as int >= old(self).high_water_mark() {
                r.0 as int + 1
            } else {
                old(self).high_water_mark()
            },
    {
        let ghost alive0 = self.alive@;
        let ghost killed0 = self.killed@;
        if !self.has_deleted {
            let i = self.next_id;
            proof {
                let w = choose|w: int| 0 <= w < BITSET_SIZE && reusable(alive0, killed0, w);
                assert(!alive0[w]);
                assert(i < BITSET_SIZE);
                assert forall|j: int| 0 <= j < i implies !reusable(alive0, killed0, j) by {
                    assert(alive0[j]);
                }
                if in_killed(killed0, i as int) {
                    let k = choose|k: int| 0 <= k < killed0.len() && killed0[k].0 as int == i as int;
                    assert(killed0[k].0 < self.next_id);
                }
            }
            self.next_id = i + 1;
            self.alive.bit_set(i);
            assert forall|j: int| self.next_id <= j < BITSET_SIZE implies !#[trigger] self.alive@[j] by {
                assert(!alive0[j]);
            }
            assert forall|j: int| 0 <= j < self.next_id implies #[trigger] self.alive@[j] by {
                if j < i {
                    assert(alive0[j]);
                }
            }
            Entity::new(i as u32, self.generation[i])
        } else {
            let mut section: usize = 0;
            while section < BITSET_SLICE_COUNT && self.alive.all_set_in_block(section)
                invariant
                    self.alive@ == alive0,
                    alive0.len() == BITSET_SIZE,
                    section <= BITSET_SLICE_COUNT,
                    forall|j: int| 0 <= j < section * 32 ==> #[trigger] alive0[j],
                decreases BITSET_SLICE_COUNT - section,
            {
                section = section + 1;
            }
            proof {
                let w = choose|w: int| 0 <= w < BITSET_SIZE && reusable(alive0, killed0, w);
                assert(!alive0[w]);
                assert(w >= section * 32);
                assert(section < BITSET_SLICE_COUNT);
            }
            let mut i: usize = section * BLOCK_BITS;
            while i < BITSET_SIZE && (self.alive.bit_test(i) || self.killed_contains(i))
                invariant
                    self.alive@ == alive0,
                    self.killed@ == killed0,
                    alive0.len() == BITSET_SIZE,
                    i <= BITSET_SIZE,
                    forall|j: int| 0 <= j < i ==> !reusable(alive0, killed0, j),
                decreases BITSET_SIZE - i,
            {
                assert forall|j: int| 0 <= j < i + 1 implies !reusable(alive0, killed0, j) by {
                    if j < i {
                    }
                }
                i = i + 1;
            }
            proof {
                let w = choose|w: int| 0 <= w < BITSET_SIZE && reusable(alive0, killed0, w);
                assert(w >= i);
                assert(i < BITSET_SIZE);
            }
            self.alive.bit_set(i);
            if i >= self.next_id {
                self.next_id = i + 1;
                self.has_deleted = self.killed.len() > 0;
                assert(!self.has_deleted ==> forall|j: int| 0 <= j < self.next_id ==> #[trigger] self.alive@[j]) by {
                    if !self.has_deleted {
                        assert forall|j: int| 0 <= j < self.next_id implies #[trigger] self.alive@[j] by {
                            if j < i {
                                assert(!reusable(alive0, killed0, j));
                                assert(killed0.len() == 0);
                            }
                        }
                    }
                }
            }
            assert forall|j: int| self.next_id <= j < BITSET_SIZE implies !#[trigger] self.alive@[j] by {
                assert(!alive0[j]);
            }
            assert forall|k: int| 0 <= k < self.killed@.len() implies !self.alive@[(#[trigger] self.killed@[k]).0 as int] by {
                if self.killed@[k].0 as int == i as int {
                    assert(in_killed(killed0, i as int));
                }
            }
            Entity::new(i as u32, self.generation[i])
        }
    }

    /// Whether `entity` is the current identifier of an allocated slot: its
    /// liveness bit is set and its generation is the slot's current one.
    pub fn is_alive(&self, entity: Entity) -> (r: bool)
        requires
            self.wf(),
            entity.0 < BITSET_SIZE,
        ensures
            r == self.alive_spec(entity),
    {
        let i = entity.0 as usize;
        self.alive.bit_test(i) && self.generation[i] == entity.1
    }

    /// Kills `entity`: frees its slot, moves the slot to the next generation
    /// (so that every copy of `entity` is dead from now on) and appends
    /// `entity` to the killed list. Does nothing when `entity` is not alive.
    pub fn kill(&mut self, entity: Entity)
        requires
            old(self).wf(),
            entity.0 < BITSET_SIZE,
            old(self).alive_spec(entity) ==> entity.1 < u32::MAX,
        ensures
            final(self).wf(),
            final(self).high_water_mark() == old(self).high_water_mark(),
            old(self).alive_spec(entity) ==> {
                &&& final(self).alive_bits() == old(self).alive_bits().update(entity.0 as int, false)
                &&& final(self).generations() == old(self).generations().update(
                    entity.0 as int,
                    (entity.1 + 1) as u32,
                )
                &&& final(self).killed_list() == old(self).killed_list().push(entity)
            },
            !old(self).alive_spec(entity) ==> {
                &&& final(self).alive_bits() == old(self).alive_bits()
                &&& final(self).generations() == old(self).generations()
                &&& final(self).killed_list() == old(self).killed_list()
            },
    {
        if self.is_alive(entity) {
            let i = entity.0 as usize;
            let ghost alive0 = self.alive@;
            let ghost killed0 = self.killed@;
            proof {
                if i >= self.next_id {
                    assert(!alive0[i as int]);
                }
            }
            self.alive.bit_reset(i);
            self.generation.set(i, entity.1 + 1);
            self.killed.push(entity);
            self.has_deleted = true;
            assert forall|k: int| 0 <= k < self.killed@.len() implies {
                &&& (#[trigger] self.killed@[k]).0 < self.next_id
                &&& !self.alive@[self.killed@[k].0 as int]
            } by {
                if k < killed0.len() {
                    assert(self.killed@[k] == killed0[k]);
                    assert(old(self).killed_list()[k] == killed0[k]);
                }
            }
        }
    }

    /// The identifiers killed since the last clear, in the order of the kills.
    pub fn killed(&self) -> (r: &Vec<Entity>)
        ensures
            r@ == self.killed_list(),
    {
        &self.killed
    }

    /// Empties the killed list.
    pub fn clear_killed(&mut self)
        requires
            old(self).wf(),
        ensures
            final(self).wf(),
            final(self).killed_list() == Seq::<Entity>::empty(),
            final(self).alive_bits() == old(self).alive_bits(),
            final(self).generations() == old(self).generations(),
            final(self).high_water_mark() == old(self).high_water_mark(),
    {
        self.killed.clear();
    }

    /// The liveness bitset, usable as an operand of a join.
    pub fn bitset(&self) -> (r: &BitSetVec)
        requires
            self.wf(),
        ensures
            r@ == self.alive_bits(),
            r@.len() == BITSET_SIZE,
    {
        &self.alive
    }

    /// Iterates over the slot indices where `bitset` is set, below the
    /// high-water mark; each step yields the slot's current identifier when
    /// it is allocated, and `None` otherwise.
    pub fn iter_with_bitset(&self, bitset: Rc<BitSetVec>) -> (r: EntityIterator<'_>)
        requires
            self.wf(),
            bitset@.len() == BITSET_SIZE,
        ensures
            r.wf(),
            r.remaining() == visits(bitset@, 0, self.high_water_mark()),
            r.alive_view() == self.alive_bits(),
            r.generations_view() == self.generations(),
    {
        EntityIterator::new(self.next_id, &self.alive, &self.generation, bitset)
    }
}

/// The liveness bits of an allocator whose allocated slots are exactly `0..n`.
pub open spec fn first_slots(n: int) -> Seq<bool> {
    Seq::new(BITSET_SIZE as nat, |i: int| i < n)
}

/// Allocation in order: on an allocator whose allocated slots are exactly
/// `0..n`, with every generation 0 and no pending kills, some slot can be
/// handed out, the lowest one is `n` and its generation is 0, so `create`
/// returns `(n, 0)` and leaves exactly `0..n + 1` allocated. From a new
/// allocator, `N` creates with no kills in between thus return indices
/// `0..N - 1` in order, all of generation 0.
pub proof fn lemma_create_in_order(alive: Seq<bool>, generations: Seq<u32>, killed: Seq<Entity>, n: int)
    requires
        0 <= n < BITSET_SIZE,
        alive == first_slots(n),
        generations.len() == BITSET_SIZE,
        forall|i: int| 0 <= i < BITSET_SIZE ==> #[trigger] generations[i] == 0,
        killed.len() == 0,
    ensures
        has_reusable(alive, killed),
        forall|i: int| #[trigger] lowest_reusable(alive, killed, i) ==> i == n,
        generations[n] == 0,
        alive.update(n, true) == first_slots(n + 1),
{
    assert(reusable(alive, killed, n));
    assert forall|i: int| #[trigger] lowest_reusable(alive, killed, i) implies i == n by {
        if i < n {
            assert(alive[i]);
        }
        if i > n {
            assert(!reusable(alive, killed, n));
        }
    }
    assert(alive.update(n, true) =~= first_slots(n + 1));
}

/// A killed identifier stays dead: after `kill(e)` of a live `e`, the
/// following `create` does not hand out `e`'s slot again (it waits in the
/// killed list), and `e` is not alive afterwards.
pub proof fn lemma_kill_then_create(
    alive0: Seq<bool>,
    generations0: Seq<u32>,
    killed0: Seq<Entity>,
    e: Entity,
    alive1: Seq<bool>,
    generations1: Seq<u32>,
    killed1: Seq<Entity>,
    r: Entity,
)
    requires
        alive0.len() == BITSET_SIZE,
        generations0.len() == BITSET_SIZE,
        e.0 < BITSET_SIZE,
        alive0[e.0 as int],
        generations0[e.0 as int] == e.1,
        e.1 < u32::MAX,
        alive1 == alive0.update(e.0 as int, false),
        generations1 == generations0.update(e.0 as int, (e.1 + 1) as u32),
        killed1 == killed0.push(e),
        lowest_reusable(alive1, killed1, r.0 as int),
    ensures
        r.0 != e.0,
        !(alive1.update(r.0 as int, true)[e.0 as int] && generations1[e.0 as int] == e.1),
{
    assert(killed1[killed0.len() as int] == e);
    assert(in_killed(killed1, e.0 as int));
}

/// Reuse after the killed list was cleared: when `create` hands out the
/// slot of a killed identifier `e`, no lower slot was free, the new
/// identifier has the next generation, and `e` itself is not alive.
pub proof fn lemma_reuse_after_clear(
    alive: Seq<bool>,
    generations: Seq<u32>,
    killed: Seq<Entity>,
    e: Entity,
    r: Entity,
)
    requires
        alive.len() == BITSET_SIZE,
        generations.len() == BITSET_SIZE,
        e.0 < BITSET_SIZE,
        e.1 < u32::MAX,
        generations[e.0 as int] == (e.1 + 1) as u32,
        lowest_reusable(alive, killed, r.0 as int),
        r.1 == generations[r.0 as int],
        r.0 == e.0,
    ensures
        forall|j: int| 0 <= j < r.0 ==> !reusable(alive, killed, j),
        r == Entity(e.0, (e.1 + 1) as u32),
        !(alive.update(r.0 as int, true)[e.0 as int] && generations[e.0 as int] == e.1),
{
}

/// Generations only grow, and a kill strictly raises its slot's: an
/// identifier captured while current never equals one that `create` hands
/// out for the same slot after the identifier was killed.
pub proof fn lemma_kill_invalidates(
    generations0: Seq<u32>,
    captured: Entity,
    generations1: Seq<u32>,
    generations2: Seq<u32>,
    r: Entity,
)
    requires
        generations0.len() == BITSET_SIZE,
        captured.0 < BITSET_SIZE,
        captured.1 == generations0[captured.0 as int],
        captured.1 < u32::MAX,
        generations1 == generations0.update(captured.0 as int, (captured.1 + 1) as u32),
        generations2.len() == BITSET_SIZE,
        forall|j: int| 0 <= j < BITSET_SIZE ==> #[trigger] generations2[j] >= generations1[j],
        r.0 == captured.0,
        r.1 == generations2[r.0 as int],
    ensures
        generations1[captured.0 as int] > generations0[captured.0 as int],
        r != captured,
{
    assert(generations2[captured.0 as int] >= generations1[captured.0 as int]);
}

} // verus!
