//! Generational identifiers of UI elements.
use vstd::prelude::*;

verus! {

/// A generational handle naming one UI element.
///
/// The index names a slot; the generation tells apart the successive
/// elements that occupy the same slot over time.
#[derive(Clone, Copy, Debug, PartialEq, Eq, Structural, Hash)]
pub struct Entity {
    pub index: u32,
    pub generation: u32,
}

impl Entity {
    /// An identifier whose index is the reserved value `u32::MAX` names no element.
    pub open spec fn is_null_spec(&self) -> bool {
        self.index == u32::MAX
    }

    pub fn new(index: u32, generation: u32) -> (r: Entity)
        ensures
            r.index == index,
            r.generation == generation,
    {
        Entity { index, generation }
    }

    /// The sentinel identifier, used where no element is meant.
    pub fn null() -> (r: Entity)
        ensures
            r.is_null_spec(),
            r.generation == 0,
    {
        Entity { index: u32::MAX, generation: 0 }
    }

    pub fn is_null(&self) -> (r: bool)
        ensures
            r == self.is_null_spec(),
    {
        self.index == u32::MAX
    }

    /// The slot index of this identifier.
    pub fn index(&self) -> (r: usize)
        ensures
            r == self.index,
    {
        self.index as usize
    }

    pub fn generation(&self) -> (r: u32)
        ensures
            r == self.generation,
    {
        self.generation
    }
}

} // verus!
