use vstd::prelude::*;

verus! {

/// An identifier: a slot index and the generation of that slot when the
/// identifier was handed out. Two identifiers are equal when both fields are.
///
/// Identifiers are created by `Entities` and used as keys of `Components`.
#[derive(Copy, Clone, Debug, PartialEq, Eq, Hash, Structural)]
pub struct Entity(pub u32, pub u32);

impl Entity {
    /// The identifier with the given index and generation.
    pub(crate) fn new(index: u32, generation: u32) -> (r: Entity)
        ensures
            r.0 == index,
            r.1 == generation,
    {
        Entity(index, generation)
    }

    /// The slot index of this identifier.
    pub fn index(&self) -> (r: u32)
        ensures
            r == self.0,
    {
        self.0
    }

    /// The generation of this identifier.
    pub fn generation(&self) -> (r: u32)
        ensures
            r == self.1,
    {
        self.1
    }
}

} // verus!
