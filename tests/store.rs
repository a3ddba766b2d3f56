use style_storage::entity::Entity;
use style_storage::store::{Entry, StoreError, StyleStore, MAX_ENTRIES};
use style_storage::tree::Tree;

fn ent(index: u32) -> Entity {
    Entity::new(index, 0)
}

#[test]
fn round_trip_inline() {
    let mut s: StyleStore<u32> = StyleStore::new(false);
    assert_eq!(s.insert_inline(ent(2), 11), Ok(()));
    assert_eq!(s.get(ent(2)), Some(&11));
    assert_eq!(s.get(ent(1)), None);
    assert_eq!(s.inline_len(), 1);
}

#[test]
fn round_trip_shared() {
    let mut s: StyleStore<u32> = StyleStore::new(false);
    assert_eq!(s.insert_shared(ent(0), 21), Ok(()));
    assert_eq!(s.get(ent(0)), Some(&21));
    assert_eq!(s.shared_len(), 1);
}

#[test]
fn overwrite_keeps_one_entry() {
    let mut s: StyleStore<u32> = StyleStore::new(false);
    s.insert_inline(ent(4), 1).unwrap();
    s.insert_inline(ent(4), 2).unwrap();
    assert_eq!(s.get(ent(4)), Some(&2));
    assert_eq!(s.inline_len(), 1);
    s.insert_shared(ent(5), 3).unwrap();
    s.insert_shared(ent(5), 4).unwrap();
    assert_eq!(s.get(ent(5)), Some(&4));
    assert_eq!(s.shared_len(), 1);
}

#[test]
fn inline_overrides_shared_inline_first() {
    let mut s: StyleStore<&str> = StyleStore::new(false);
    let tree = Tree::new();
    let e = ent(3);
    s.insert_inline(e, "inline").unwrap();
    s.insert_shared(e, "shared").unwrap();
    assert_eq!(s.get(e), Some(&"inline"));
    assert_eq!(s.resolve(e, &tree), Some(&"inline"));
}

#[test]
fn inline_overrides_shared_shared_first() {
    let mut s: StyleStore<&str> = StyleStore::new(false);
    let tree = Tree::new();
    let e = ent(3);
    s.insert_shared(e, "shared").unwrap();
    s.insert_inline(e, "inline").unwrap();
    assert_eq!(s.get(e), Some(&"inline"));
    assert_eq!(s.resolve(e, &tree), Some(&"inline"));
}

#[test]
fn clearing_inline_reveals_shared() {
    let mut s: StyleStore<u32> = StyleStore::new(false);
    let e = ent(1);
    s.insert_inline(e, 10).unwrap();
    s.insert_shared(e, 20).unwrap();
    s.insert_shared(e, 30).unwrap();
    assert_eq!(s.get(e), Some(&10));
    s.remove_inline(e);
    assert_eq!(s.get(e), Some(&30));
    s.remove_inline(e);
    assert_eq!(s.get(e), Some(&30));
}

#[test]
fn removal_swaps_last_inline_entry() {
    let mut s: StyleStore<u32> = StyleStore::new(false);
    let (e1, e2, e3) = (ent(1), ent(2), ent(3));
    s.insert_inline(e1, 100).unwrap();
    s.insert_inline(e2, 200).unwrap();
    s.insert_inline(e3, 300).unwrap();
    s.remove(e1);
    assert_eq!(s.get(e1), None);
    assert_eq!(s.get(e2), Some(&200));
    assert_eq!(s.get(e3), Some(&300));
    assert_eq!(s.inline_len(), 2);
    s.remove(e3);
    assert_eq!(s.get(e2), Some(&200));
    assert_eq!(s.get(e3), None);
}

#[test]
fn removal_swaps_last_shared_entry() {
    let mut s: StyleStore<u32> = StyleStore::new(false);
    let (e1, e2, e3) = (ent(1), ent(2), ent(3));
    s.insert_shared(e1, 100).unwrap();
    s.insert_shared(e2, 200).unwrap();
    s.insert_shared(e3, 300).unwrap();
    s.remove(e1);
    assert_eq!(s.get(e1), None);
    assert_eq!(s.get(e2), Some(&200));
    assert_eq!(s.get(e3), Some(&300));
    assert_eq!(s.shared_len(), 2);
}

#[test]
fn removal_fixes_shadowed_shared_entry() {
    let mut s: StyleStore<u32> = StyleStore::new(false);
    let (e1, e2, e3) = (ent(1), ent(2), ent(3));
    s.insert_shared(e1, 1).unwrap();
    s.insert_shared(e2, 2).unwrap();
    s.insert_shared(e3, 3).unwrap();
    s.insert_inline(e3, 33).unwrap();
    s.remove(e1);
    assert_eq!(s.get(e3), Some(&33));
    s.remove_inline(e3);
    assert_eq!(s.get(e3), Some(&3));
    assert_eq!(s.get(e2), Some(&2));
}

#[test]
fn removal_of_both_tiers() {
    let mut s: StyleStore<u32> = StyleStore::new(false);
    let e = ent(6);
    s.insert_shared(e, 1).unwrap();
    s.insert_inline(e, 2).unwrap();
    s.remove(e);
    assert_eq!(s.get(e), None);
    assert_eq!(s.inline_len(), 0);
    assert_eq!(s.shared_len(), 0);
}

#[test]
fn stale_generation_is_rejected() {
    let mut s: StyleStore<u32> = StyleStore::new(false);
    let stale = Entity::new(5, 0);
    s.insert_inline(stale, 50).unwrap();
    s.remove(stale);
    let fresh = Entity::new(5, 1);
    s.insert_inline(fresh, 51).unwrap();
    assert_eq!(s.get(stale), None);
    assert_eq!(s.get(fresh), Some(&51));
}

#[test]
fn stale_write_is_ignored() {
    let mut s: StyleStore<u32> = StyleStore::new(false);
    let fresh = Entity::new(5, 1);
    s.insert_shared(fresh, 7).unwrap();
    assert_eq!(s.insert_inline(Entity::new(5, 0), 8), Ok(()));
    assert_eq!(s.get(fresh), Some(&7));
    assert_eq!(s.get(Entity::new(5, 0)), None);
    assert_eq!(s.inline_len(), 0);
}

#[test]
fn newer_generation_drops_older_data() {
    let mut s: StyleStore<u32> = StyleStore::new(false);
    let stale = Entity::new(2, 3);
    s.insert_inline(stale, 1).unwrap();
    s.insert_shared(stale, 2).unwrap();
    let fresh = Entity::new(2, 4);
    s.insert_shared(fresh, 9).unwrap();
    assert_eq!(s.get(stale), None);
    assert_eq!(s.get(fresh), Some(&9));
    assert_eq!(s.inline_len(), 0);
    assert_eq!(s.shared_len(), 1);
}

#[test]
fn null_identifier_is_ignored() {
    let mut s: StyleStore<u32> = StyleStore::new(false);
    assert_eq!(s.insert_inline(Entity::null(), 1), Ok(()));
    assert_eq!(s.insert_shared(Entity::null(), 1), Ok(()));
    assert_eq!(s.inline_len(), 0);
    assert_eq!(s.shared_len(), 0);
    assert_eq!(s.get(Entity::null()), None);
}

#[test]
fn inheritance_walks_to_nearest_ancestor() {
    let mut s: StyleStore<u32> = StyleStore::new(true);
    let mut tree = Tree::new();
    let (a, b, c) = (ent(0), ent(1), ent(2));
    tree.set_parent(a, None);
    tree.set_parent(b, Some(a));
    tree.set_parent(c, Some(b));
    s.insert_shared(a, 10).unwrap();
    assert_eq!(s.get(c), None);
    assert_eq!(s.resolve(c, &tree), s.resolve(a, &tree));
    assert_eq!(s.resolve(c, &tree), Some(&10));
    s.insert_shared(b, 20).unwrap();
    assert_eq!(s.resolve(c, &tree), Some(&20));
    assert_eq!(s.resolve(b, &tree), Some(&20));
    s.insert_inline(c, 30).unwrap();
    assert_eq!(s.resolve(c, &tree), Some(&30));
}

#[test]
fn no_inheritance_for_plain_property() {
    let mut s: StyleStore<u32> = StyleStore::new(false);
    let mut tree = Tree::new();
    let (a, b) = (ent(0), ent(1));
    tree.set_parent(b, Some(a));
    s.insert_shared(a, 10).unwrap();
    assert!(!s.is_inheritable());
    assert_eq!(s.resolve(b, &tree), None);
}

#[test]
fn resolve_without_ancestor_value() {
    let s: StyleStore<u32> = StyleStore::new(true);
    let mut tree = Tree::new();
    tree.set_parent(ent(1), Some(ent(0)));
    assert_eq!(s.resolve(ent(1), &tree), None);
}

#[test]
fn resolve_ends_on_cycle() {
    let s: StyleStore<u32> = StyleStore::new(true);
    let mut tree = Tree::new();
    tree.set_parent(ent(0), Some(ent(1)));
    tree.set_parent(ent(1), Some(ent(0)));
    assert_eq!(s.resolve(ent(0), &tree), None);
}

#[test]
fn tree_parent_checks_generation() {
    let mut tree = Tree::new();
    let child = Entity::new(3, 1);
    tree.set_parent(child, Some(ent(0)));
    assert_eq!(tree.parent(child), Some(ent(0)));
    assert_eq!(tree.parent(Entity::new(3, 0)), None);
    assert_eq!(tree.len(), 4);
    tree.remove(child);
    assert_eq!(tree.parent(child), None);
}

#[test]
fn entry_holds_owner_and_value() {
    let e = Entry::new(ent(9), 5u8);
    assert_eq!(e.entity, ent(9));
    assert_eq!(e.value, 5);
}

#[test]
fn capacity_limit_is_a_locator_limit() {
    assert_eq!(MAX_ENTRIES, (1usize << 30) - 1);
    assert_eq!(StoreError::CapacityExceeded, StoreError::CapacityExceeded);
}
