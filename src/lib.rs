//! An entity-component store: a generational identifier allocator, sparse
//! per-type attribute tables with presence bitsets, bitset-driven iterators,
//! and a left-to-right join algebra over presence bitsets.

mod bitset;
mod component_iterator;
mod components;
mod entities;
mod entity;
mod entity_iterator;
mod join;

pub use self::bitset::{
    and_bits, andnot_bits, bits_of, create_bitset, lemma_visits_count, lemma_visits_front,
    not_bits, or_bits, popcount, visits, word_bit, BitSetVec, BITSET_SIZE, BITSET_SLICE_COUNT,
    BLOCK_BITS,
};
pub use self::entities::{
    first_slots, has_reusable, in_killed, lemma_create_in_order, lemma_kill_invalidates,
    lemma_kill_then_create, lemma_reuse_after_clear, lowest_reusable, reusable, Entities,
};
pub use self::entity::Entity;
pub use self::components::{lemma_present_count, lemma_table_round_trip, present_values, slots_after_insert, Components};
pub use self::component_iterator::{ComponentIterator, ComponentIteratorMut};
pub use self::entity_iterator::EntityIterator;
pub use self::join::{eval_join, step_bits, Connective, Join, JoinTerm};
