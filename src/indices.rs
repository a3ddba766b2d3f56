//! The per-property table from element index to locator.
use vstd::prelude::*;

use crate::entity::Entity;
use crate::locator::{DataIndex, EntityIndex, INDEX_MASK};

verus! {

/// A dense table of locators, indexed by the slot index of an identifier.
///
/// It tracks index to locator only: whether the identifier is still the live
/// occupant of its slot is checked by the owner of the dense arrays.
pub struct EntityIndices {
    array: Vec<EntityIndex>,
}

/// What a locator says, decoded: `None` for the null locator.
pub open spec fn decode(l: EntityIndex) -> Option<DataIndex> {
    if l.is_null_spec() {
        None
    } else if l.is_inline_spec() {
        Some(DataIndex::Inline(l.index_spec() as usize))
    } else {
        Some(DataIndex::Shared(l.index_spec() as usize))
    }
}

/// The table `s` after writing `l` at slot `i`, growing it with null
/// locators when `i` lies beyond its end.
pub open spec fn table_set(s: Seq<EntityIndex>, i: int, l: EntityIndex) -> Seq<EntityIndex> {
    if i < s.len() {
        s.update(i, l)
    } else {
        Seq::new((i + 1) as nat, |j: int| if j == i { l } else if j < s.len() { s[j] } else { EntityIndex::null_value() })
    }
}

impl View for EntityIndices {
    type V = Seq<EntityIndex>;

    closed spec fn view(&self) -> Seq<EntityIndex> {
        self.array@
    }
}

impl EntityIndices {
    /// Every locator in the table is well formed.
    pub open spec fn wf(&self) -> bool {
        forall|i: int| 0 <= i < self@.len() ==> #[trigger] self@[i].wf()
    }

    /// The locator at slot `i`; the null locator beyond the end.
    pub open spec fn locator_at(&self, i: int) -> EntityIndex {
        if 0 <= i < self@.len() {
            self@[i]
        } else {
            EntityIndex::null_value()
        }
    }

    pub open spec fn get_spec(&self, entity: Entity) -> Option<DataIndex> {
        decode(self.locator_at(entity.index as int))
    }

    pub fn new() -> (r: EntityIndices)
        ensures
            r@ == Seq::<EntityIndex>::empty(),
            r.wf(),
    {
        EntityIndices { array: Vec::new() }
    }

    /// The number of slots in the table.
    pub fn len(&self) -> (r: usize)
        ensures
            r == self@.len(),
    {
        self.array.len()
    }

    /// Writes `locator` at the slot of `entity`, growing the table with null
    /// locators as needed.
    pub fn set(&mut self, entity: Entity, locator: EntityIndex)
        requires
            old(self).wf(),
            locator.wf(),
            !entity.is_null_spec(),
        ensures
            final(self).wf(),
            final(self)@ == table_set(old(self)@, entity.index as int, locator),
            forall|i: int| #[trigger]
                final(self).locator_at(i) == if i == entity.index {
                    locator
                } else {
                    old(self).locator_at(i)
                },
    {
        let i = entity.index();
        let ghost before = self.array@;
        assert(old(self)@ == old(self).array@);
        let null = EntityIndex::null();
        if i >= self.array.len() {
            while self.array.len() <= i
                invariant
                    i < u32::MAX,
                    null == EntityIndex::null_value(),
                    null.wf(),
                    forall|j: int| 0 <= j < self.array@.len() ==> #[trigger] self.array@[j].wf(),
                    before.len() <= self.array@.len() <= i + 1,
                    forall|j: int| 0 <= j < before.len() ==> self.array@[j] == before[j],
                    forall|j: int|
                        before.len() <= j < self.array@.len() ==> #[trigger] self.array@[j]
                            == EntityIndex::null_value(),
                decreases i + 1 - self.array@.len(),
            {
                self.array.push(null);
            }
            self.array.set(i, locator);
            assert(self.array@ =~= table_set(before, i as int, locator));
        } else {
            self.array.set(i, locator);
        }
    }

    /// Records that the inline data of `entity` lies at offset `index`.
    pub fn insert_inline(&mut self, entity: Entity, index: usize)
        requires
            old(self).wf(),
            index < INDEX_MASK,
            !entity.is_null_spec(),
        ensures
            final(self).wf(),
            final(self).get_spec(entity) == Some(DataIndex::Inline(index)),
            final(self).locator_at(entity.index as int).locates(true, index as u32),
            forall|i: int|
                i != entity.index ==> #[trigger] final(self).locator_at(i) == old(self).locator_at(i),
    {
        let l = EntityIndex::new_inline(index);
        self.set(entity, l);
    }

    /// Records that the shared data of `entity` lies at offset `index`.
    pub fn insert_shared(&mut self, entity: Entity, index: usize)
        requires
            old(self).wf(),
            index < INDEX_MASK,
            !entity.is_null_spec(),
        ensures
            final(self).wf(),
            final(self).get_spec(entity) == Some(DataIndex::Shared(index)),
            final(self).locator_at(entity.index as int).locates(false, index as u32),
            forall|i: int|
                i != entity.index ==> #[trigger] final(self).locator_at(i) == old(self).locator_at(i),
    {
        let l = EntityIndex::new_shared(index);
        self.set(entity, l);
    }

    /// Resets the slot of `entity` to the null locator, if the table has it.
    pub fn clear(&mut self, entity: Entity)
        requires
            old(self).wf(),
        ensures
            final(self).wf(),
            entity.index < old(self)@.len() ==> final(self)@ == old(self)@.update(
                entity.index as int,
                EntityIndex::null_value(),
            ),
            entity.index >= old(self)@.len() ==> final(self)@ == old(self)@,
            forall|i: int| #[trigger]
                final(self).locator_at(i) == if i == entity.index {
                    EntityIndex::null_value()
                } else {
                    old(self).locator_at(i)
                },
    {
        let i = entity.index();
        if i < self.array.len() {
            self.array.set(i, EntityIndex::null());
        }
    }

    /// The locator at the slot of `entity`; the null locator beyond the end.
    pub fn locator(&self, entity: Entity) -> (r: EntityIndex)
        requires
            self.wf(),
        ensures
            r == self.locator_at(entity.index as int),
            r.wf(),
    {
        let i = entity.index();
        if i < self.array.len() {
            self.array[i]
        } else {
            EntityIndex::null()
        }
    }

    /// Which dense array holds the data of `entity`, and where; `None` when
    /// the slot lies beyond the table or holds the null locator.
    pub fn get(&self, entity: Entity) -> (r: Option<DataIndex>)
        requires
            self.wf(),
        ensures
            r == self.get_spec(entity),
    {
        let l = self.locator(entity);
        if l.is_null() {
            None
        } else if l.is_inline() {
            Some(DataIndex::Inline(l.index()))
        } else {
            Some(DataIndex::Shared(l.index()))
        }
    }
}

} // verus!
