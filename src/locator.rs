//! Packed locators: which storage tier holds a value, and at what offset.
use vstd::prelude::*;

verus! {

/// Mask of the offset bits (bits 0 to 29).
pub const INDEX_MASK: u32 = 0x3FFF_FFFF;

/// Tier flag (bit 31): set for the inline tier, clear for the shared tier.
pub const INLINE_MASK: u32 = 0x8000_0000;

/// Flag (bit 30) that marks a value inherited from an ancestor.
pub const INHERITED_MASK: u32 = 0x4000_0000;

/// The reserved word that stands for "no value".
pub const NULL_LOCATOR: u32 = 0x7FFF_FFFF;

/// The data index determines which dense array to index.
#[derive(Clone, Copy, Debug, PartialEq, Eq, Structural)]
pub enum DataIndex {
    Inline(usize),
    Shared(usize),
}

/// Represents an index that can either be used to retrieve inline or shared data.
///
/// Since inline data overrides shared data, one word per element and property
/// says which tier holds the value: bit 31 is set for inline data and clear for
/// shared data, bit 30 marks an inherited value, and bits 0 to 29 hold the
/// offset into the dense array of that tier.
#[derive(Clone, Copy, Debug, PartialEq, Eq, Structural)]
pub struct EntityIndex(u32);

/// A locator that names a rule-matched value.
pub struct RuleIndex(pub u32);

impl EntityIndex {
    /// The packed word.
    pub closed spec fn raw(&self) -> u32 {
        self.0
    }

    /// The null locator, as a value.
    pub closed spec fn null_value() -> EntityIndex {
        EntityIndex(NULL_LOCATOR)
    }

    /// The null locator is null and well formed.
    pub proof fn lemma_null_value()
        ensures
            EntityIndex::null_value().is_null_spec(),
            EntityIndex::null_value().wf(),
    {
    }

    pub open spec fn is_null_spec(&self) -> bool {
        self.raw() == NULL_LOCATOR
    }

    pub open spec fn index_spec(&self) -> u32 {
        self.raw() & INDEX_MASK
    }

    pub open spec fn is_inline_spec(&self) -> bool {
        self.raw() & INLINE_MASK != 0
    }

    pub open spec fn is_inherited_spec(&self) -> bool {
        self.raw() & INHERITED_MASK != 0
    }

    /// Either the null locator or one whose offset lies below the reserved pattern.
    pub open spec fn wf(&self) -> bool {
        self.is_null_spec() || self.index_spec() < INDEX_MASK
    }

    /// The locator of the given tier and offset, without the inherited flag.
    pub open spec fn locates(&self, inline: bool, index: u32) -> bool {
        &&& !self.is_null_spec()
        &&& self.is_inline_spec() == inline
        &&& !self.is_inherited_spec()
        &&& self.index_spec() == index
        &&& self.wf()
    }

    pub fn null() -> (r: EntityIndex)
        ensures
            r == EntityIndex::null_value(),
            r.is_null_spec(),
            r.wf(),
    {
        EntityIndex(NULL_LOCATOR)
    }

    pub fn is_null(&self) -> (r: bool)
        ensures
            r == self.is_null_spec(),
    {
        self.0 == NULL_LOCATOR
    }

    /// The locator of inline data at the given offset.
    pub fn new_inline(index: usize) -> (r: EntityIndex)
        requires
            index < INDEX_MASK,
        ensures
            r.locates(true, index as u32),
    {
        let i = index as u32;
        let value = i | INLINE_MASK;
        assert(value != NULL_LOCATOR && value & INLINE_MASK != 0 && value & INHERITED_MASK == 0
            && value & INDEX_MASK == i) by (bit_vector)
            requires
                i < INDEX_MASK,
                value == i | INLINE_MASK,
        ;
        EntityIndex(value)
    }

    /// The locator of shared data at the given offset.
    pub fn new_shared(index: usize) -> (r: EntityIndex)
        requires
            index < INDEX_MASK,
        ensures
            r.locates(false, index as u32),
    {
        let i = index as u32;
        assert(i != NULL_LOCATOR && i & INLINE_MASK == 0 && i & INHERITED_MASK == 0 && i
            & INDEX_MASK == i) by (bit_vector)
            requires
                i < INDEX_MASK,
        ;
        EntityIndex(i)
    }

    /// Packs a tier, an inherited flag and an offset into a locator; `None`
    /// when the offset does not fit below the reserved pattern.
    pub fn encode(inline: bool, inherited: bool, index: usize) -> (r: Option<EntityIndex>)
        ensures
            r.is_none() <==> index >= INDEX_MASK,
            r matches Some(l) ==> {
                &&& !l.is_null_spec()
                &&& l.is_inline_spec() == inline
                &&& l.is_inherited_spec() == inherited
                &&& l.index_spec() == index
                &&& l.wf()
            },
    {
        if index >= INDEX_MASK as usize {
            return None;
        }
        let l = if inline {
            EntityIndex::new_inline(index)
        } else {
            EntityIndex::new_shared(index)
        };
        Some(l.with_inherited(inherited))
    }

    /// The same locator with the inherited flag set to `flag`; the null
    /// locator stays null.
    pub fn with_inherited(self, flag: bool) -> (r: EntityIndex)
        requires
            self.wf(),
        ensures
            r.wf(),
            self.is_null_spec() ==> r == self,
            !self.is_null_spec() ==> {
                &&& !r.is_null_spec()
                &&& r.is_inline_spec() == self.is_inline_spec()
                &&& r.is_inherited_spec() == flag
                &&& r.index_spec() == self.index_spec()
            },
    {
        if self.is_null() {
            return self;
        }
        let v = self.0;
        if flag {
            let w = v | INHERITED_MASK;
            assert(w & INLINE_MASK == v & INLINE_MASK && w & INHERITED_MASK != 0 && w & INDEX_MASK
                == v & INDEX_MASK && w != NULL_LOCATOR) by (bit_vector)
                requires
                    v & INDEX_MASK < INDEX_MASK,
                    w == v | INHERITED_MASK,
            ;
            EntityIndex(w)
        } else {
            let w = v & !INHERITED_MASK;
            assert(w & INLINE_MASK == v & INLINE_MASK && w & INHERITED_MASK == 0 && w & INDEX_MASK
                == v & INDEX_MASK && w != NULL_LOCATOR) by (bit_vector)
                requires
                    v & INDEX_MASK < INDEX_MASK,
                    w == v & !INHERITED_MASK,
            ;
            EntityIndex(w)
        }
    }

    /// The offset into the dense array of the locator's tier.
    pub fn index(&self) -> (r: usize)
        ensures
            r == self.index_spec(),
    {
        (self.0 & INDEX_MASK) as usize
    }

    /// Returns true if the data index refers to inline data.
    pub fn is_inline(&self) -> (r: bool)
        ensures
            r == self.is_inline_spec(),
    {
        (self.0 & INLINE_MASK) != 0
    }

    /// Returns true if the data index refers to an inherited value.
    pub fn is_inherited(&self) -> (r: bool)
        ensures
            r == self.is_inherited_spec(),
    {
        (self.0 & INHERITED_MASK) != 0
    }
}

} // verus!
