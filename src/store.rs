//! Dense two-tier storage of one style property, with cascade resolution.
use vstd::prelude::*;

use crate::entity::Entity;
use crate::indices::EntityIndices;
use crate::locator::EntityIndex;
use crate::tree::Tree;

verus! {

/// The most entries one tier of one property can hold.
pub const MAX_ENTRIES: usize = 0x3FFF_FFFF;

/// One value of the dense arrays, with the identifier that owns it.
pub struct Entry<T> {
    pub value: T,
    pub entity: Entity,
}

impl<T> Entry<T> {
    pub fn new(entity: Entity, value: T) -> (r: Entry<T>)
        ensures
            r.entity == entity,
            r.value == value,
    {
        Entry { value, entity }
    }
}

/// Why an insertion was refused.
#[derive(Clone, Copy, Debug, PartialEq, Eq, Structural)]
pub enum StoreError {
    /// The tier already holds as many entries as a locator can address.
    CapacityExceeded,
}

/// The value held in `o`, read through the reference.
pub open spec fn deref_opt<T>(o: Option<&T>) -> Option<T> {
    match o {
        Some(x) => Some(*x),
        None => None,
    }
}

/// `m` without the entries of identifiers other than `e` that share its slot.
pub open spec fn evict<T>(m: Map<Entity, T>, e: Entity) -> Map<Entity, T> {
    m.restrict(m.dom().filter(|k: Entity| k.index != e.index || k == e))
}

/// The value seen by a lookup in a two-tier model: inline first, then shared.
pub open spec fn tier_lookup<T>(inline: Map<Entity, T>, shared: Map<Entity, T>, e: Entity) -> Option<T> {
    if inline.contains_key(e) {
        Some(inline[e])
    } else if shared.contains_key(e) {
        Some(shared[e])
    } else {
        None
    }
}

/// The storage of one style property for all elements.
///
/// Values live in two dense arrays: the inline tier (explicitly set values)
/// and the shared tier (rule-matched values). A locator table says, for each
/// element, where the value of highest priority lies. A shared value of an
/// element that also holds an inline value stays in the shared array, so that
/// clearing the inline value brings it back.
pub struct StyleStore<T> {
    entity_indices: EntityIndices,
    inline_data: Vec<Entry<T>>,
    shared_data: Vec<Entry<T>>,
    inheritable: bool,
    inline_values: Ghost<Map<Entity, T>>,
    shared_values: Ghost<Map<Entity, T>>,
}

impl<T> StyleStore<T> {
    /// The explicitly set values, by identifier.
    pub closed spec fn inline_map(&self) -> Map<Entity, T> {
        self.inline_values@
    }

    /// The rule-matched values, by identifier.
    pub closed spec fn shared_map(&self) -> Map<Entity, T> {
        self.shared_values@
    }

    /// Whether an element without a value of its own takes its ancestors' value.
    pub closed spec fn inheritable_spec(&self) -> bool {
        self.inheritable
    }

    /// The value a lookup of `e` yields: the inline value if there is one,
    /// else the shared value.
    pub open spec fn get_spec(&self, e: Entity) -> Option<T> {
        tier_lookup(self.inline_map(), self.shared_map(), e)
    }

    /// Some identifier other than `e`, of the same slot and of a generation
    /// not older than `e`'s, holds data: writes through `e` are stale.
    pub open spec fn is_superseded(&self, e: Entity) -> bool {
        exists|k: Entity|
            (self.inline_map().contains_key(k) || self.shared_map().contains_key(k)) && k.index
                == e.index && k != e && k.generation >= e.generation
    }

    spec fn loc(&self, i: int) -> EntityIndex {
        self.entity_indices.locator_at(i)
    }

    spec fn inline_entry_ok(&self, k: int) -> bool {
        let e = self.inline_data@[k].entity;
        &&& !e.is_null_spec()
        &&& self.loc(e.index as int).locates(true, k as u32)
        &&& self.inline_values@.contains_key(e)
        &&& self.inline_values@[e] == self.inline_data@[k].value
    }

    spec fn inline_key_ok(&self, e: Entity) -> bool {
        let l = self.loc(e.index as int);
        &&& !e.is_null_spec()
        &&& !l.is_null_spec()
        &&& l.is_inline_spec()
        &&& l.index_spec() < self.inline_data@.len()
        &&& self.inline_data@[l.index_spec() as int].entity == e
    }

    spec fn shared_entry_ok(&self, k: int) -> bool {
        let e = self.shared_data@[k].entity;
        &&& !e.is_null_spec()
        &&& self.shared_values@.contains_key(e)
        &&& self.shared_values@[e] == self.shared_data@[k].value
        &&& (self.inline_values@.contains_key(e) || self.loc(e.index as int).locates(
            false,
            k as u32,
        ))
    }

    spec fn shared_key_ok(&self, e: Entity) -> bool {
        let l = self.loc(e.index as int);
        &&& !e.is_null_spec()
        &&& exists|k: int|
            0 <= k < self.shared_data@.len() && #[trigger] self.shared_data@[k].entity == e
        &&& !self.inline_values@.contains_key(e) ==> {
            &&& !l.is_null_spec()
            &&& !l.is_inline_spec()
            &&& l.index_spec() < self.shared_data@.len()
            &&& self.shared_data@[l.index_spec() as int].entity == e
        }
    }

    spec fn slot_ok(&self, i: int) -> bool {
        let l = self.loc(i);
        !l.is_null_spec() ==> {
            &&& !l.is_inherited_spec()
            &&& l.is_inline_spec() ==> l.index_spec() < self.inline_data@.len()
                && self.inline_data@[l.index_spec() as int].entity.index == i
            &&& !l.is_inline_spec() ==> l.index_spec() < self.shared_data@.len()
                && self.shared_data@[l.index_spec() as int].entity.index == i
        }
    }

    /// The locator table and both dense arrays agree with the two value maps.
    pub closed spec fn wf(&self) -> bool {
        &&& self.entity_indices.wf()
        &&& self.inline_data@.len() <= MAX_ENTRIES
        &&& self.shared_data@.len() <= MAX_ENTRIES
        &&& self.inline_values@.dom().finite()
        &&& self.inline_values@.dom().len() == self.inline_data@.len()
        &&& self.shared_values@.dom().finite()
        &&& self.shared_values@.dom().len() == self.shared_data@.len()
        &&& forall|k: int| 0 <= k < self.inline_data@.len() ==> #[trigger] self.inline_entry_ok(k)
        &&& forall|e: Entity| #[trigger]
            self.inline_values@.contains_key(e) ==> self.inline_key_ok(e)
        &&& forall|k: int| 0 <= k < self.shared_data@.len() ==> #[trigger] self.shared_entry_ok(k)
        &&& forall|e: Entity| #[trigger]
            self.shared_values@.contains_key(e) ==> self.shared_key_ok(e)
        &&& forall|k1: int, k2: int|
            0 <= k1 < self.shared_data@.len() && 0 <= k2 < self.shared_data@.len() && k1 != k2
                ==> #[trigger] self.shared_data@[k1].entity != #[trigger] self.shared_data@[k2].entity
        &&& forall|i: int| #[trigger] self.slot_ok(i)
    }

    /// An empty store; `inheritable` says whether elements without a value
    /// take their nearest ancestor's value.
    pub fn new(inheritable: bool) -> (r: StyleStore<T>)
        ensures
            r.wf(),
            r.inline_map() == Map::<Entity, T>::empty(),
            r.shared_map() == Map::<Entity, T>::empty(),
            r.inheritable_spec() == inheritable,
    {
        proof {
            EntityIndex::lemma_null_value();
        }
        StyleStore {
            entity_indices: EntityIndices::new(),
            inline_data: Vec::new(),
            shared_data: Vec::new(),
            inheritable,
            inline_values: Ghost(Map::empty()),
            shared_values: Ghost(Map::empty()),
        }
    }

    pub fn is_inheritable(&self) -> (r: bool)
        ensures
            r == self.inheritable_spec(),
    {
        self.inheritable
    }

    /// The number of entries in the inline tier.
    pub fn inline_len(&self) -> (r: usize)
        requires
            self.wf(),
        ensures
            r == self.inline_map().len(),
    {
        self.inline_data.len()
    }

    /// The number of entries in the shared tier.
    pub fn shared_len(&self) -> (r: usize)
        requires
            self.wf(),
        ensures
            r == self.shared_map().len(),
    {
        self.shared_data.len()
    }

    /// The value of `entity`: its inline value if it has one, else its shared
    /// value; `None` when it has neither, or when a newer identifier occupies
    /// its slot.
    pub fn get(&self, entity: Entity) -> (r: Option<&T>)
        requires
            self.wf(),
        ensures
            deref_opt(r) == self.get_spec(entity),
    {
        let l = self.entity_indices.locator(entity);
        if l.is_null() {
            return None;
        }
        assert(self.slot_ok(entity.index as int));
        let k = l.index();
        if l.is_inline() {
            let entry = &self.inline_data[k];
            assert(self.inline_entry_ok(k as int));
            if entry.entity == entity {
                Some(&entry.value)
            } else {
                None
            }
        } else {
            let entry = &self.shared_data[k];
            assert(self.shared_entry_ok(k as int));
            if entry.entity == entity {
                Some(&entry.value)
            } else {
                None
            }
        }
    }

    /// The offset of the shared entry of `entity`, found by a scan of the
    /// shared array.
    fn find_shared(&self, entity: Entity) -> (r: Option<usize>)
        requires
            self.wf(),
        ensures
            r matches Some(j) ==> j < self.shared_data@.len() && self.shared_data@[j as int].entity
                == entity,
            r is None ==> !self.shared_values@.contains_key(entity),
    {
        let mut j: usize = 0;
        while j < self.shared_data.len()
            invariant
                j <= self.shared_data@.len(),
                forall|i: int| 0 <= i < j ==> self.shared_data@[i].entity != entity,
            decreases self.shared_data@.len() - j,
        {
            if self.shared_data[j].entity == entity {
                return Some(j);
            }
            j = j + 1;
        }
        proof {
            if self.shared_values@.contains_key(entity) {
                assert(self.shared_key_ok(entity));
            }
        }
        None
    }

    /// Removes the shared entry at offset `j`, whose owner holds no inline
    /// value, moving the last entry into its place.
    fn take_shared(&mut self, j: usize)
        requires
            old(self).wf(),
            j < old(self).shared_data@.len(),
            !old(self).inline_values@.contains_key(old(self).shared_data@[j as int].entity),
        ensures
            final(self).wf(),
            final(self).inline_values@ == old(self).inline_values@,
            final(self).shared_values@ == old(self).shared_values@.remove(
                old(self).shared_data@[j as int].entity,
            ),
            final(self).inheritable == old(self).inheritable,
    {
        let ghost s0 = *self;
        let e = self.shared_data[j].entity;
        let last = self.shared_data.len() - 1;
        proof {
            assert(self.shared_entry_ok(j as int));
            assert(self.shared_entry_ok(last as int));
            assert(self.slot_ok(e.index as int));
        }
        self.shared_data.swap_remove(j);
        self.entity_indices.clear(e);
        let ghost mut moved: Option<Entity> = None;
        if j < last {
            let m = self.shared_data[j].entity;
            let l = self.entity_indices.locator(m);
            if !l.is_null() && !l.is_inline() {
                self.entity_indices.insert_shared(m, j);
                proof {
                    moved = Some(m);
                }
            }
        }
        self.shared_values = Ghost(self.shared_values@.remove(e));
        proof {
            self.lemma_take_shared(s0, j as int, moved);
        }
    }

    /// The store stays well formed when `take_shared` has removed entry `j` of `s0`.
    proof fn lemma_take_shared(&self, s0: StyleStore<T>, j: int, moved: Option<Entity>)
        requires
            s0.wf(),
            0 <= j < s0.shared_data@.len(),
            !s0.inline_values@.contains_key(s0.shared_data@[j].entity),
            self.entity_indices.wf(),
            self.inline_data@ == s0.inline_data@,
            self.inline_values@ == s0.inline_values@,
            self.shared_data@ == s0.shared_data@.update(j, s0.shared_data@.last()).drop_last(),
            self.shared_values@ == s0.shared_values@.remove(s0.shared_data@[j].entity),
            ({
                let e = s0.shared_data@[j].entity;
                let lt = s0.shared_data@.last().entity;
                &&& moved is None ==> !(j < s0.shared_data@.len() - 1 && !s0.loc(lt.index as int).is_null_spec()
                    && !s0.loc(lt.index as int).is_inline_spec())
                &&& moved matches Some(m) ==> m == lt && j < s0.shared_data@.len() - 1
                    && !s0.loc(m.index as int).is_null_spec() && !s0.loc(m.index as int).is_inline_spec()
                    && self.loc(m.index as int).locates(false, j as u32)
                &&& forall|i: int| #![trigger self.loc(i)]
                    i != e.index && !(moved is Some && i == moved->0.index) ==> self.loc(i) == s0.loc(i)
                &&& (moved is None || moved->0.index != e.index) ==> self.loc(e.index as int) == EntityIndex::null_value()
            }),
        ensures
            self.wf(),
    {
        EntityIndex::lemma_null_value();
        let e = s0.shared_data@[j].entity;
        let n0 = s0.shared_data@.len();
        let last = n0 - 1;
        assert(s0.shared_entry_ok(j));
        assert(s0.shared_entry_ok(last));
        assert(s0.slot_ok(e.index as int));
        if moved is Some {
            let m = moved->0;
            assert(s0.shared_key_ok(m));
            if s0.inline_values@.contains_key(m) {
                assert(s0.inline_key_ok(m));
            }
            assert(m.index != e.index);
        }
        assert forall|i: int| #[trigger]
            self.loc(i) == (if i == e.index {
                EntityIndex::null_value()
            } else if moved is Some && i == moved->0.index {
                self.loc(moved->0.index as int)
            } else {
                s0.loc(i)
            }) by {
            assert(s0.slot_ok(i));
        }
        assert forall|k: int| 0 <= k < self.inline_data@.len() implies #[trigger] self.inline_entry_ok(
            k,
        ) by {
            assert(s0.inline_entry_ok(k));
        }
        assert forall|x: Entity| #[trigger]
            self.inline_values@.contains_key(x) implies self.inline_key_ok(x) by {
            assert(s0.inline_key_ok(x));
        }
        assert forall|k: int| 0 <= k < self.shared_data@.len() implies #[trigger] self.shared_entry_ok(
            k,
        ) by {
            if k == j {
                assert(s0.shared_entry_ok(last));
            } else {
                assert(s0.shared_entry_ok(k));
                let x = s0.shared_data@[k].entity;
                assert(s0.slot_ok(x.index as int));
            }
        }
        assert forall|x: Entity| #[trigger]
            self.shared_values@.contains_key(x) implies self.shared_key_ok(x) by {
            assert(s0.shared_key_ok(x));
            let k0 = choose|k: int| 0 <= k < n0 && #[trigger] s0.shared_data@[k].entity == x;
            if k0 == last {
                assert(self.shared_data@[j].entity == x);
            } else {
                assert(self.shared_data@[k0].entity == x);
            }
            if !self.inline_values@.contains_key(x) {
                assert(s0.slot_ok(x.index as int));
            }
        }
        assert forall|i: int| #[trigger] self.slot_ok(i) by {
            assert(s0.slot_ok(i));
        }
        assert(s0.shared_values@.dom().contains(e));
    }

    /// Removes the inline entry at offset `k`, moving the last entry into its
    /// place; the owner's slot then locates its shared value, if it has one.
    fn take_inline(&mut self, k: usize)
        requires
            old(self).wf(),
            k < old(self).inline_data@.len(),
        ensures
            final(self).wf(),
            final(self).inline_values@ == old(self).inline_values@.remove(
                old(self).inline_data@[k as int].entity,
            ),
            final(self).shared_values@ == old(self).shared_values@,
            final(self).inheritable == old(self).inheritable,
    {
        let ghost s0 = *self;
        let e = self.inline_data[k].entity;
        let last = self.inline_data.len() - 1;
        let found = self.find_shared(e);
        proof {
            assert(self.inline_entry_ok(k as int));
            assert(self.inline_entry_ok(last as int));
        }
        self.inline_data.swap_remove(k);
        if k < last {
            let m = self.inline_data[k].entity;
            self.entity_indices.insert_inline(m, k);
        }
        match found {
            Some(j) => {
                self.entity_indices.insert_shared(e, j);
            },
            None => {
                self.entity_indices.clear(e);
            },
        }
        self.inline_values = Ghost(self.inline_values@.remove(e));
        proof {
            let f = match found {
                Some(j) => Some(j as int),
                None => None,
            };
            self.lemma_take_inline(s0, k as int, f);
        }
    }

    /// The store stays well formed when `take_inline` has removed entry `k` of `s0`.
    proof fn lemma_take_inline(&self, s0: StyleStore<T>, k: int, found: Option<int>)
        requires
            s0.wf(),
            0 <= k < s0.inline_data@.len(),
            self.entity_indices.wf(),
            self.inline_data@ == s0.inline_data@.update(k, s0.inline_data@.last()).drop_last(),
            self.inline_values@ == s0.inline_values@.remove(s0.inline_data@[k].entity),
            self.shared_data@ == s0.shared_data@,
            self.shared_values@ == s0.shared_values@,
            ({
                let e = s0.inline_data@[k].entity;
                let m = s0.inline_data@.last().entity;
                let moved = k < s0.inline_data@.len() - 1;
                &&& found matches Some(j) ==> 0 <= j < s0.shared_data@.len()
                    && s0.shared_data@[j].entity == e && self.loc(e.index as int).locates(false, j as u32)
                &&& found is None ==> !s0.shared_values@.contains_key(e)
                    && self.loc(e.index as int) == EntityIndex::null_value()
                &&& moved && m.index != e.index ==> self.loc(m.index as int).locates(true, k as u32)
                &&& forall|i: int| #![trigger self.loc(i)]
                    i != e.index && !(moved && i == m.index) ==> self.loc(i) == s0.loc(i)
            }),
        ensures
            self.wf(),
    {
        EntityIndex::lemma_null_value();
        let e = s0.inline_data@[k].entity;
        let n0 = s0.inline_data@.len();
        let last = n0 - 1;
        let m = s0.inline_data@[last].entity;
        assert(s0.inline_entry_ok(k));
        assert(s0.inline_entry_ok(last));
        if k < last {
            assert(m.index != e.index);
        }
        if found is Some {
            assert(s0.shared_entry_ok(found->0));
        }
        assert forall|i: int| 0 <= i < self.inline_data@.len() implies #[trigger] self.inline_entry_ok(
            i,
        ) by {
            if i == k {
                assert(s0.inline_entry_ok(last));
            } else {
                assert(s0.inline_entry_ok(i));
            }
        }
        assert forall|x: Entity| #[trigger]
            self.inline_values@.contains_key(x) implies self.inline_key_ok(x) by {
            assert(s0.inline_key_ok(x));
        }
        assert forall|i: int| 0 <= i < self.shared_data@.len() implies #[trigger] self.shared_entry_ok(
            i,
        ) by {
            assert(s0.shared_entry_ok(i));
            let y = s0.shared_data@[i].entity;
            if y != e && s0.inline_values@.contains_key(y) {
                assert(s0.inline_key_ok(y));
            }
        }
        assert forall|y: Entity| #[trigger]
            self.shared_values@.contains_key(y) implies self.shared_key_ok(y) by {
            assert(s0.shared_key_ok(y));
        }
        assert forall|i: int| #[trigger] self.slot_ok(i) by {
            assert(s0.slot_ok(i));
        }
        assert(s0.inline_values@.dom().contains(e));
    }

    /// The identifier whose entry the slot `i` locates.
    spec fn pointed(&self, i: int) -> Entity {
        let l = self.loc(i);
        if l.is_inline_spec() {
            self.inline_data@[l.index_spec() as int].entity
        } else {
            self.shared_data@[l.index_spec() as int].entity
        }
    }

    /// An identifier that holds data is the one its slot locates.
    proof fn lemma_key_located(&self, x: Entity)
        requires
            self.wf(),
            self.inline_values@.contains_key(x) || self.shared_values@.contains_key(x),
        ensures
            !self.loc(x.index as int).is_null_spec(),
            self.pointed(x.index as int) == x,
    {
        if self.inline_values@.contains_key(x) {
            assert(self.inline_key_ok(x));
        } else {
            assert(self.shared_key_ok(x));
        }
    }

    /// The identifier located by a non-null slot holds data there.
    proof fn lemma_pointed_holds(&self, i: int)
        requires
            self.wf(),
            !self.loc(i).is_null_spec(),
        ensures
            self.pointed(i).index == i,
            self.inline_values@.contains_key(self.pointed(i)) || self.shared_values@.contains_key(
                self.pointed(i),
            ),
            self.loc(i).is_inline_spec() ==> self.inline_values@.contains_key(self.pointed(i)),
            !self.loc(i).is_inline_spec() ==> !self.inline_values@.contains_key(self.pointed(i)),
    {
        assert(self.slot_ok(i));
        let l = self.loc(i);
        if l.is_inline_spec() {
            assert(self.inline_entry_ok(l.index_spec() as int));
        } else {
            assert(self.shared_entry_ok(l.index_spec() as int));
            let p = self.pointed(i);
            if self.inline_values@.contains_key(p) {
                assert(self.inline_key_ok(p));
            }
        }
    }

    /// The identifier whose entry the slot of `entity` locates, if any.
    fn occupant(&self, entity: Entity) -> (r: Option<Entity>)
        requires
            self.wf(),
        ensures
            r is None ==> self.loc(entity.index as int).is_null_spec(),
            r matches Some(o) ==> !self.loc(entity.index as int).is_null_spec() && o == self.pointed(
                entity.index as int,
            ),
    {
        let l = self.entity_indices.locator(entity);
        if l.is_null() {
            return None;
        }
        proof {
            assert(self.slot_ok(entity.index as int));
        }
        if l.is_inline() {
            Some(self.inline_data[l.index()].entity)
        } else {
            Some(self.shared_data[l.index()].entity)
        }
    }

    /// Clears the explicitly set value of `entity`; a rule-matched value it
    /// holds becomes visible again.
    pub fn remove_inline(&mut self, entity: Entity)
        requires
            old(self).wf(),
        ensures
            final(self).wf(),
            final(self).inline_map() == old(self).inline_map().remove(entity),
            final(self).shared_map() == old(self).shared_map(),
            final(self).inheritable_spec() == old(self).inheritable_spec(),
    {
        let l = self.entity_indices.locator(entity);
        if !l.is_null() && l.is_inline() {
            proof {
                assert(self.slot_ok(entity.index as int));
            }
            let k = l.index();
            if self.inline_data[k].entity == entity {
                self.take_inline(k);
                return;
            }
        }
        proof {
            if self.inline_values@.contains_key(entity) {
                self.lemma_key_located(entity);
            }
            assert(self.inline_values@.remove(entity) =~= self.inline_values@);
        }
    }

    /// Removes every value of `entity`, as when the element leaves the tree.
    pub fn remove(&mut self, entity: Entity)
        requires
            old(self).wf(),
        ensures
            final(self).wf(),
            final(self).inline_map() == old(self).inline_map().remove(entity),
            final(self).shared_map() == old(self).shared_map().remove(entity),
            final(self).inheritable_spec() == old(self).inheritable_spec(),
            final(self).get_spec(entity) is None,
            forall|f: Entity| f != entity ==> #[trigger] final(self).get_spec(f) == old(self).get_spec(f),
    {
        self.remove_inline(entity);
        let l = self.entity_indices.locator(entity);
        if !l.is_null() && !l.is_inline() {
            proof {
                assert(self.slot_ok(entity.index as int));
            }
            let j = l.index();
            if self.shared_data[j].entity == entity {
                proof {
                    self.lemma_pointed_holds(entity.index as int);
                }
                self.take_shared(j);
                proof {
                    assert(self.inline_values@.remove(entity) =~= self.inline_values@);
                }
                return;
            }
        }
        proof {
            if self.shared_values@.contains_key(entity) {
                self.lemma_key_located(entity);
            }
            assert(self.shared_values@.remove(entity) =~= self.shared_values@);
            assert(self.inline_values@.remove(entity) =~= self.inline_values@);
        }
    }

    /// Whether writes through `entity` are stale.
    fn superseded(&self, entity: Entity) -> (r: bool)
        requires
            self.wf(),
        ensures
            r == self.is_superseded(entity),
    {
        match self.occupant(entity) {
            None => {
                proof {
                    if self.is_superseded(entity) {
                        let k = choose|k: Entity|
                            (self.inline_map().contains_key(k) || self.shared_map().contains_key(k))
                                && k.index == entity.index && k != entity && k.generation
                                >= entity.generation;
                        self.lemma_key_located(k);
                    }
                }
                false
            },
            Some(o) => {
                proof {
                    self.lemma_pointed_holds(entity.index as int);
                    if self.is_superseded(entity) {
                        let k = choose|k: Entity|
                            (self.inline_map().contains_key(k) || self.shared_map().contains_key(k))
                                && k.index == entity.index && k != entity && k.generation
                                >= entity.generation;
                        self.lemma_key_located(k);
                    }
                }
                o != entity && o.generation >= entity.generation
            },
        }
    }

    /// Drops the data of any other identifier of the slot of `entity`.
    fn evict_others(&mut self, entity: Entity)
        requires
            old(self).wf(),
        ensures
            final(self).wf(),
            final(self).inline_values@ == evict(old(self).inline_values@, entity),
            final(self).shared_values@ == evict(old(self).shared_values@, entity),
            final(self).inheritable == old(self).inheritable,
            final(self).loc(entity.index as int).is_null_spec() || final(self).pointed(
                entity.index as int,
            ) == entity,
            final(self).inline_values@.len() <= old(self).inline_values@.len(),
            final(self).shared_values@.len() <= old(self).shared_values@.len(),
    {
        let ghost s0 = *self;
        match self.occupant(entity) {
            Some(o) => {
                if o != entity {
                    proof {
                        self.lemma_pointed_holds(entity.index as int);
                    }
                    self.remove(o);
                    proof {
                        assert forall|k: Entity|
                            s0.inline_values@.contains_key(k) || s0.shared_values@.contains_key(k)
                                implies k.index != entity.index || k == entity || k == o by {
                            s0.lemma_key_located(k);
                        }
                        assert(self.inline_values@ =~= evict(s0.inline_values@, entity));
                        assert(self.shared_values@ =~= evict(s0.shared_values@, entity));
                        if !self.loc(entity.index as int).is_null_spec() {
                            self.lemma_pointed_holds(entity.index as int);
                            let p = self.pointed(entity.index as int);
                            assert(p.index == entity.index);
                        }
                    }
                    return;
                }
                proof {
                    assert forall|k: Entity|
                        s0.inline_values@.contains_key(k) || s0.shared_values@.contains_key(k)
                            implies k.index != entity.index || k == entity by {
                        s0.lemma_key_located(k);
                    }
                }
            },
            None => {
                proof {
                    assert forall|k: Entity|
                        s0.inline_values@.contains_key(k) || s0.shared_values@.contains_key(k)
                            implies k.index != entity.index by {
                        s0.lemma_key_located(k);
                    }
                }
            },
        }
        proof {
            assert(self.inline_values@ =~= evict(s0.inline_values@, entity));
            assert(self.shared_values@ =~= evict(s0.shared_values@, entity));
        }
    }

    /// The offset of the inline entry of `entity`, if it has one.
    fn inline_offset(&self, entity: Entity) -> (r: Option<usize>)
        requires
            self.wf(),
        ensures
            r is None ==> !self.inline_values@.contains_key(entity),
            r matches Some(k) ==> self.inline_values@.contains_key(entity) && k
                < self.inline_data@.len() && self.inline_data@[k as int].entity == entity,
    {
        let l = self.entity_indices.locator(entity);
        proof {
            if self.inline_values@.contains_key(entity) {
                assert(self.inline_key_ok(entity));
            }
        }
        if !l.is_null() && l.is_inline() {
            proof {
                assert(self.slot_ok(entity.index as int));
                assert(self.inline_entry_ok(l.index_spec() as int));
            }
            let k = l.index();
            if self.inline_data[k].entity == entity {
                return Some(k);
            }
        }
        None
    }

    /// Sets the explicit value of `entity`, which overrides any rule-matched
    /// value it holds.
    ///
    /// The null identifier, and an identifier whose slot holds data of a
    /// newer generation, leave the store as it is. Data of an older
    /// generation of the same slot is dropped. A new entry is refused when the
    /// inline tier is full.
    pub fn insert_inline(&mut self, entity: Entity, value: T) -> (r: Result<(), StoreError>)
        requires
            old(self).wf(),
        ensures
            final(self).wf(),
            final(self).inheritable_spec() == old(self).inheritable_spec(),
            entity.is_null_spec() || old(self).is_superseded(entity) ==> {
                &&& r is Ok
                &&& final(self).inline_map() == old(self).inline_map()
                &&& final(self).shared_map() == old(self).shared_map()
            },
            !entity.is_null_spec() && !old(self).is_superseded(entity) ==> {
                &&& r is Err <==> !old(self).inline_map().contains_key(entity) && old(
                    self,
                ).inline_map().len() >= MAX_ENTRIES
                &&& r is Err ==> r == Err::<(), StoreError>(StoreError::CapacityExceeded)
                    && final(self).inline_map() == old(self).inline_map() && final(self).shared_map()
                    == old(self).shared_map()
                &&& r is Ok ==> final(self).inline_map() == evict(old(self).inline_map(), entity).insert(
                    entity,
                    value,
                ) && final(self).shared_map() == evict(old(self).shared_map(), entity)
                &&& r is Ok ==> final(self).get_spec(entity) == Some(value)
            },
    {
        if entity.is_null() {
            return Ok(());
        }
        if self.superseded(entity) {
            return Ok(());
        }
        match self.inline_offset(entity) {
            Some(k) => {
                let ghost s0 = *self;
                proof {
                    self.lemma_key_located(entity);
                    assert forall|x: Entity|
                        s0.inline_values@.contains_key(x) || s0.shared_values@.contains_key(x)
                            implies x.index != entity.index || x == entity by {
                        s0.lemma_key_located(x);
                    }
                    assert(evict(s0.inline_values@, entity) =~= s0.inline_values@);
                    assert(evict(s0.shared_values@, entity) =~= s0.shared_values@);
                }
                self.inline_data.set(k, Entry::new(entity, value));
                self.inline_values = Ghost(self.inline_values@.insert(entity, value));
                proof {
                    self.lemma_set_inline(s0, k as int);
                }
                Ok(())
            },
            None => {
                if self.inline_data.len() >= MAX_ENTRIES {
                    return Err(StoreError::CapacityExceeded);
                }
                self.evict_others(entity);
                let ghost s0 = *self;
                let k = self.inline_data.len();
                proof {
                    assert(!self.inline_values@.contains_key(entity));
                }
                self.inline_data.push(Entry::new(entity, value));
                self.entity_indices.insert_inline(entity, k);
                self.inline_values = Ghost(self.inline_values@.insert(entity, value));
                proof {
                    self.lemma_push_inline(s0, entity);
                }
                Ok(())
            },
        }
    }

    /// The store stays well formed when the value of inline entry `k` of `s0` is replaced.
    proof fn lemma_set_inline(&self, s0: StyleStore<T>, k: int)
        requires
            s0.wf(),
            0 <= k < s0.inline_data@.len(),
            self.entity_indices == s0.entity_indices,
            self.inline_data@ == s0.inline_data@.update(
                k,
                Entry { value: self.inline_data@[k].value, entity: s0.inline_data@[k].entity },
            ),
            self.inline_values@ == s0.inline_values@.insert(
                s0.inline_data@[k].entity,
                self.inline_data@[k].value,
            ),
            self.shared_data@ == s0.shared_data@,
            self.shared_values@ == s0.shared_values@,
        ensures
            self.wf(),
    {
        let e = s0.inline_data@[k].entity;
        assert(s0.inline_entry_ok(k));
        assert forall|i: int| 0 <= i < self.inline_data@.len() implies #[trigger] self.inline_entry_ok(
            i,
        ) by {
            assert(s0.inline_entry_ok(i));
        }
        assert forall|x: Entity| #[trigger]
            self.inline_values@.contains_key(x) implies self.inline_key_ok(x) by {
            assert(s0.inline_key_ok(x));
        }
        assert forall|i: int| 0 <= i < self.shared_data@.len() implies #[trigger] self.shared_entry_ok(
            i,
        ) by {
            assert(s0.shared_entry_ok(i));
        }
        assert forall|y: Entity| #[trigger]
            self.shared_values@.contains_key(y) implies self.shared_key_ok(y) by {
            assert(s0.shared_key_ok(y));
        }
        assert forall|i: int| #[trigger] self.slot_ok(i) by {
            assert(s0.slot_ok(i));
        }
        assert(self.inline_values@.dom() =~= s0.inline_values@.dom());
    }

    /// The store stays well formed when an inline entry of `e` is appended to `s0`.
    proof fn lemma_push_inline(&self, s0: StyleStore<T>, e: Entity)
        requires
            s0.wf(),
            !e.is_null_spec(),
            !s0.inline_values@.contains_key(e),
            s0.loc(e.index as int).is_null_spec() || s0.pointed(e.index as int) == e,
            s0.inline_data@.len() < MAX_ENTRIES,
            self.entity_indices.wf(),
            self.inline_data@ == s0.inline_data@.push(
                Entry { value: self.inline_data@.last().value, entity: e },
            ),
            self.inline_values@ == s0.inline_values@.insert(e, self.inline_data@.last().value),
            self.shared_data@ == s0.shared_data@,
            self.shared_values@ == s0.shared_values@,
            self.loc(e.index as int).locates(true, s0.inline_data@.len() as u32),
            forall|i: int| i != e.index ==> #[trigger] self.loc(i) == s0.loc(i),
        ensures
            self.wf(),
    {
        let n0 = s0.inline_data@.len();
        assert(s0.slot_ok(e.index as int));
        assert forall|i: int| 0 <= i < self.inline_data@.len() implies #[trigger] self.inline_entry_ok(
            i,
        ) by {
            if i < n0 {
                assert(s0.inline_entry_ok(i));
                let x = s0.inline_data@[i].entity;
                assert(s0.slot_ok(x.index as int));
            }
        }
        assert forall|x: Entity| #[trigger]
            self.inline_values@.contains_key(x) implies self.inline_key_ok(x) by {
            if x != e {
                assert(s0.inline_key_ok(x));
                assert(s0.slot_ok(x.index as int));
            }
        }
        assert forall|i: int| 0 <= i < self.shared_data@.len() implies #[trigger] self.shared_entry_ok(
            i,
        ) by {
            assert(s0.shared_entry_ok(i));
            let y = s0.shared_data@[i].entity;
            assert(s0.slot_ok(y.index as int));
        }
        assert forall|y: Entity| #[trigger]
            self.shared_values@.contains_key(y) implies self.shared_key_ok(y) by {
            assert(s0.shared_key_ok(y));
            assert(s0.slot_ok(y.index as int));
        }
        assert forall|i: int| #[trigger] self.slot_ok(i) by {
            assert(s0.slot_ok(i));
        }
    }

    /// The offset of the shared entry of `entity`, if it has one.
    fn shared_offset(&self, entity: Entity) -> (r: Option<usize>)
        requires
            self.wf(),
        ensures
            r is None ==> !self.shared_values@.contains_key(entity),
            r matches Some(j) ==> self.shared_values@.contains_key(entity) && j
                < self.shared_data@.len() && self.shared_data@[j as int].entity == entity,
    {
        let l = self.entity_indices.locator(entity);
        proof {
            if self.shared_values@.contains_key(entity) {
                self.lemma_key_located(entity);
                assert(self.shared_key_ok(entity));
                if self.inline_values@.contains_key(entity) {
                    assert(self.inline_key_ok(entity));
                }
            }
        }
        if l.is_null() {
            return None;
        }
        proof {
            assert(self.slot_ok(entity.index as int));
        }
        let j = l.index();
        if !l.is_inline() {
            if self.shared_data[j].entity == entity {
                proof {
                    assert(self.shared_entry_ok(j as int));
                }
                return Some(j);
            }
            return None;
        }
        if self.inline_data[j].entity == entity {
            let found = self.find_shared(entity);
            proof {
                if found is Some {
                    assert(self.shared_entry_ok(found->0 as int));
                }
            }
            return found;
        }
        None
    }

    /// Sets the rule-matched value of `entity`. An inline value of `entity`
    /// still overrides it; it is kept, and shows once the inline value is
    /// cleared.
    ///
    /// The null identifier, and an identifier whose slot holds data of a
    /// newer generation, leave the store as it is. Data of an older
    /// generation of the same slot is dropped. A new entry is refused when the
    /// shared tier is full.
    pub fn insert_shared(&mut self, entity: Entity, value: T) -> (r: Result<(), StoreError>)
        requires
            old(self).wf(),
        ensures
            final(self).wf(),
            final(self).inheritable_spec() == old(self).inheritable_spec(),
            entity.is_null_spec() || old(self).is_superseded(entity) ==> {
                &&& r is Ok
                &&& final(self).inline_map() == old(self).inline_map()
                &&& final(self).shared_map() == old(self).shared_map()
            },
            !entity.is_null_spec() && !old(self).is_superseded(entity) ==> {
                &&& r is Err <==> !old(self).shared_map().contains_key(entity) && old(
                    self,
                ).shared_map().len() >= MAX_ENTRIES
                &&& r is Err ==> r == Err::<(), StoreError>(StoreError::CapacityExceeded)
                    && final(self).inline_map() == old(self).inline_map() && final(self).shared_map()
                    == old(self).shared_map()
                &&& r is Ok ==> final(self).inline_map() == evict(old(self).inline_map(), entity)
                    && final(self).shared_map() == evict(old(self).shared_map(), entity).insert(
                    entity,
                    value,
                )
                &&& r is Ok ==> final(self).get_spec(entity) == if old(self).inline_map().contains_key(
                    entity,
                ) {
                    old(self).get_spec(entity)
                } else {
                    Some(value)
                }
            },
    {
        if entity.is_null() {
            return Ok(());
        }
        if self.superseded(entity) {
            return Ok(());
        }
        match self.shared_offset(entity) {
            Some(j) => {
                let ghost s0 = *self;
                proof {
                    self.lemma_key_located(entity);
                    assert forall|x: Entity|
                        s0.inline_values@.contains_key(x) || s0.shared_values@.contains_key(x)
                            implies x.index != entity.index || x == entity by {
                        s0.lemma_key_located(x);
                    }
                    assert(evict(s0.inline_values@, entity) =~= s0.inline_values@);
                    assert(evict(s0.shared_values@, entity) =~= s0.shared_values@);
                }
                self.shared_data.set(j, Entry::new(entity, value));
                self.shared_values = Ghost(self.shared_values@.insert(entity, value));
                proof {
                    self.lemma_set_shared(s0, j as int);
                }
                Ok(())
            },
            None => {
                if self.shared_data.len() >= MAX_ENTRIES {
                    return Err(StoreError::CapacityExceeded);
                }
                self.evict_others(entity);
                let ghost s0 = *self;
                let j = self.shared_data.len();
                let shadowed = self.inline_offset(entity);
                proof {
                    assert(!self.shared_values@.contains_key(entity));
                    if !self.loc(entity.index as int).is_null_spec() {
                        self.lemma_pointed_holds(entity.index as int);
                    }
                }
                self.shared_data.push(Entry::new(entity, value));
                if shadowed.is_none() {
                    self.entity_indices.insert_shared(entity, j);
                }
                self.shared_values = Ghost(self.shared_values@.insert(entity, value));
                proof {
                    self.lemma_push_shared(s0, entity);
                }
                Ok(())
            },
        }
    }

    /// The store stays well formed when the value of shared entry `j` of `s0` is replaced.
    proof fn lemma_set_shared(&self, s0: StyleStore<T>, j: int)
        requires
            s0.wf(),
            0 <= j < s0.shared_data@.len(),
            self.entity_indices == s0.entity_indices,
            self.shared_data@ == s0.shared_data@.update(
                j,
                Entry { value: self.shared_data@[j].value, entity: s0.shared_data@[j].entity },
            ),
            self.shared_values@ == s0.shared_values@.insert(
                s0.shared_data@[j].entity,
                self.shared_data@[j].value,
            ),
            self.inline_data@ == s0.inline_data@,
            self.inline_values@ == s0.inline_values@,
        ensures
            self.wf(),
    {
        assert(s0.shared_entry_ok(j));
        assert forall|i: int| 0 <= i < self.inline_data@.len() implies #[trigger] self.inline_entry_ok(
            i,
        ) by {
            assert(s0.inline_entry_ok(i));
        }
        assert forall|x: Entity| #[trigger]
            self.inline_values@.contains_key(x) implies self.inline_key_ok(x) by {
            assert(s0.inline_key_ok(x));
        }
        assert forall|i: int| 0 <= i < self.shared_data@.len() implies #[trigger] self.shared_entry_ok(
            i,
        ) by {
            assert(s0.shared_entry_ok(i));
        }
        assert forall|y: Entity| #[trigger]
            self.shared_values@.contains_key(y) implies self.shared_key_ok(y) by {
            assert(s0.shared_key_ok(y));
            let k = choose|k: int|
                0 <= k < s0.shared_data@.len() && #[trigger] s0.shared_data@[k].entity == y;
            assert(self.shared_data@[k].entity == y);
        }
        assert forall|i: int| #[trigger] self.slot_ok(i) by {
            assert(s0.slot_ok(i));
        }
        assert(self.shared_values@.dom() =~= s0.shared_values@.dom());
    }

    /// The store stays well formed when a shared entry of `e` is appended to `s0`.
    proof fn lemma_push_shared(&self, s0: StyleStore<T>, e: Entity)
        requires
            s0.wf(),
            !e.is_null_spec(),
            !s0.shared_values@.contains_key(e),
            s0.loc(e.index as int).is_null_spec() || s0.pointed(e.index as int) == e,
            s0.shared_data@.len() < MAX_ENTRIES,
            self.entity_indices.wf(),
            self.shared_data@ == s0.shared_data@.push(
                Entry { value: self.shared_data@.last().value, entity: e },
            ),
            self.shared_values@ == s0.shared_values@.insert(e, self.shared_data@.last().value),
            self.inline_data@ == s0.inline_data@,
            self.inline_values@ == s0.inline_values@,
            s0.inline_values@.contains_key(e) ==> self.entity_indices == s0.entity_indices,
            !s0.inline_values@.contains_key(e) ==> self.loc(e.index as int).locates(
                false,
                s0.shared_data@.len() as u32,
            ) && forall|i: int| i != e.index ==> #[trigger] self.loc(i) == s0.loc(i),
        ensures
            self.wf(),
    {
        let n0 = s0.shared_data@.len();
        assert(s0.slot_ok(e.index as int));
        assert forall|k: int| 0 <= k < n0 implies #[trigger] s0.shared_data@[k].entity != e by {
            assert(s0.shared_entry_ok(k));
        }
        assert forall|i: int| 0 <= i < self.inline_data@.len() implies #[trigger] self.inline_entry_ok(
            i,
        ) by {
            assert(s0.inline_entry_ok(i));
            let x = s0.inline_data@[i].entity;
            assert(s0.slot_ok(x.index as int));
        }
        assert forall|x: Entity| #[trigger]
            self.inline_values@.contains_key(x) implies self.inline_key_ok(x) by {
            assert(s0.inline_key_ok(x));
            assert(s0.slot_ok(x.index as int));
        }
        assert forall|i: int| 0 <= i < self.shared_data@.len() implies #[trigger] self.shared_entry_ok(
            i,
        ) by {
            if i < n0 {
                assert(s0.shared_entry_ok(i));
                let y = s0.shared_data@[i].entity;
                assert(s0.slot_ok(y.index as int));
            }
        }
        assert forall|y: Entity| #[trigger]
            self.shared_values@.contains_key(y) implies self.shared_key_ok(y) by {
            if y == e {
                assert(self.shared_data@[n0 as int].entity == e);
            } else {
                assert(s0.shared_key_ok(y));
                assert(s0.slot_ok(y.index as int));
                let k = choose|k: int|
                    0 <= k < s0.shared_data@.len() && #[trigger] s0.shared_data@[k].entity == y;
                assert(self.shared_data@[k].entity == y);
            }
        }
        assert forall|i: int| #[trigger] self.slot_ok(i) by {
            assert(s0.slot_ok(i));
        }
    }

    /// The effective value of `e`, walking up at most `steps` ancestors: its
    /// own value if it has one; else, for an inheritable property, the
    /// effective value of its parent.
    pub open spec fn resolve_from(&self, tree: &Tree, e: Entity, steps: nat) -> Option<T>
        decreases steps,
    {
        match self.get_spec(e) {
            Some(v) => Some(v),
            None => if !self.inheritable_spec() || steps == 0 {
                None
            } else {
                match tree.parent_spec(e) {
                    Some(p) => self.resolve_from(tree, p, (steps - 1) as nat),
                    None => None,
                }
            },
        }
    }

    /// The effective value of `e`. In an acyclic tree no ancestor chain is
    /// longer than the tree has slots, which bounds the walk.
    pub open spec fn resolve_spec(&self, tree: &Tree, e: Entity) -> Option<T> {
        self.resolve_from(tree, e, tree@.len())
    }

    /// The effective value of `entity`: its inline value, else its shared
    /// value, else (for an inheritable property) the value of its nearest
    /// ancestor that has one; `None` when there is none.
    pub fn resolve<'a>(&'a self, entity: Entity, tree: &Tree) -> (r: Option<&'a T>)
        requires
            self.wf(),
        ensures
            deref_opt(r) == self.resolve_spec(tree, entity),
    {
        let mut cur = entity;
        let mut steps = tree.len();
        loop
            invariant
                self.wf(),
                self.resolve_from(tree, cur, steps as nat) == self.resolve_spec(tree, entity),
            decreases steps,
        {
            match self.get(cur) {
                Some(v) => {
                    return Some(v);
                },
                None => {},
            }
            if !self.inheritable || steps == 0 {
                return None;
            }
            match tree.parent(cur) {
                Some(p) => {
                    cur = p;
                    steps = steps - 1;
                },
                None => {
                    return None;
                },
            }
        }
    }
}

/// An explicitly set value wins over a rule-matched one, whichever of the two
/// was written first: composing the effects that `insert_inline` and
/// `insert_shared` state, in either order, a lookup yields the inline value.
pub proof fn law_inline_wins_in_either_order<T>(
    inline: Map<Entity, T>,
    shared: Map<Entity, T>,
    e: Entity,
    v: T,
    w: T,
)
    ensures
        tier_lookup(evict(evict(inline, e).insert(e, v), e), evict(evict(shared, e), e).insert(e, w), e)
            == Some(v),
        tier_lookup(evict(evict(inline, e), e).insert(e, v), evict(evict(shared, e).insert(e, w), e), e)
            == Some(v),
{
}

impl<T> StyleStore<T> {
    /// An element that holds an inline value resolves to it, whatever its
    /// shared value and its ancestors hold.
    pub proof fn law_inline_overrides(&self, tree: &Tree, e: Entity)
        requires
            self.wf(),
            self.inline_map().contains_key(e),
        ensures
            self.resolve_spec(tree, e) == Some(self.inline_map()[e]),
    {
    }

    /// Two identifiers that both have a value in one store do not share a slot.
    pub proof fn law_one_identifier_per_slot(&self, a: Entity, b: Entity)
        requires
            self.wf(),
            self.get_spec(a) is Some,
            self.get_spec(b) is Some,
            a.index == b.index,
        ensures
            a == b,
    {
        self.lemma_key_located(a);
        self.lemma_key_located(b);
    }

    /// An element without a value of its own, of an inheritable property,
    /// resolves as its parent does: the walk stops at the nearest ancestor
    /// that has a value.
    pub proof fn law_nearest_ancestor(&self, tree: &Tree, c: Entity, p: Entity, steps: nat)
        requires
            self.get_spec(c) is None,
            self.inheritable_spec(),
            tree.parent_spec(c) == Some(p),
        ensures
            self.resolve_from(tree, c, steps + 1) == self.resolve_from(tree, p, steps),
            self.get_spec(p) is Some ==> self.resolve_from(tree, c, steps + 1) == self.get_spec(p),
    {
        assert(self.resolve_from(tree, p, steps) == match self.get_spec(p) {
            Some(v) => Some(v),
            None => if !self.inheritable_spec() || steps == 0 {
                None
            } else {
                match tree.parent_spec(p) {
                    Some(q) => self.resolve_from(tree, q, (steps - 1) as nat),
                    None => None,
                }
            },
        });
    }
}

} // verus!
