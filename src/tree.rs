//! Parent links between elements, as the cascade needs them.
use vstd::prelude::*;

use crate::entity::Entity;

verus! {

/// The parent of each live element, by slot index.
///
/// Slot `i` holds the identifier that lives there and its parent, if any. A
/// lookup through an identifier that no longer lives in its slot finds no
/// parent.
pub struct Tree {
    nodes: Vec<(Entity, Option<Entity>)>,
}

impl View for Tree {
    type V = Seq<(Entity, Option<Entity>)>;

    closed spec fn view(&self) -> Seq<(Entity, Option<Entity>)> {
        self.nodes@
    }
}

impl Tree {
    /// The parent of `e`, if `e` lives in the tree and has one.
    pub open spec fn parent_spec(&self, e: Entity) -> Option<Entity> {
        if e.index < self@.len() && self@[e.index as int].0 == e {
            self@[e.index as int].1
        } else {
            None
        }
    }

    pub fn new() -> (r: Tree)
        ensures
            r@ == Seq::<(Entity, Option<Entity>)>::empty(),
    {
        Tree { nodes: Vec::new() }
    }

    /// The number of slots.
    pub fn len(&self) -> (r: usize)
        ensures
            r == self@.len(),
    {
        self.nodes.len()
    }

    /// Records `child` as the live element of its slot, with the given parent.
    pub fn set_parent(&mut self, child: Entity, parent: Option<Entity>)
        requires
            !child.is_null_spec(),
        ensures
            final(self).parent_spec(child) == parent,
            forall|e: Entity|
                e.index != child.index ==> #[trigger] final(self).parent_spec(e) == old(
                    self,
                ).parent_spec(e),
            final(self)@.len() >= old(self)@.len(),
    {
        let i = child.index();
        let ghost before = self.nodes@;
        let vacant = (Entity::null(), None);
        if i >= self.nodes.len() {
            while self.nodes.len() <= i
                invariant
                    i < u32::MAX,
                    vacant.0.is_null_spec(),
                    vacant.1 is None,
                    before.len() <= self.nodes@.len() <= i + 1,
                    forall|j: int| 0 <= j < before.len() ==> self.nodes@[j] == before[j],
                    forall|j: int|
                        before.len() <= j < self.nodes@.len() ==> #[trigger] self.nodes@[j]
                            == vacant,
                decreases i + 1 - self.nodes@.len(),
            {
                self.nodes.push(vacant);
            }
        }
        self.nodes.set(i, (child, parent));
    }

    /// Forgets the element `child`; its slot then holds no live element.
    pub fn remove(&mut self, child: Entity)
        ensures
            final(self).parent_spec(child) is None,
            forall|e: Entity| e != child ==> #[trigger] final(self).parent_spec(e) == old(self).parent_spec(e),
            final(self)@.len() == old(self)@.len(),
    {
        let i = child.index();
        if i < self.nodes.len() && self.nodes[i].0 == child {
            self.nodes.set(i, (Entity::null(), None));
        }
    }

    /// The parent of `e`, if `e` lives in the tree and has one.
    pub fn parent(&self, e: Entity) -> (r: Option<Entity>)
        ensures
            r == self.parent_spec(e),
    {
        let i = e.index();
        if i < self.nodes.len() && self.nodes[i].0 == e {
            self.nodes[i].1
        } else {
            None
        }
    }
}

} // verus!
