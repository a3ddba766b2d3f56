use style_storage::entity::Entity;
use style_storage::indices::EntityIndices;
use style_storage::locator::{DataIndex, EntityIndex, INDEX_MASK};

#[test]
fn null_locator_is_null() {
    let l = EntityIndex::null();
    assert!(l.is_null());
    assert!(!EntityIndex::new_shared(0).is_null());
    assert!(!EntityIndex::new_inline(0).is_null());
}

#[test]
fn inline_locator_decodes() {
    let l = EntityIndex::new_inline(42);
    assert!(l.is_inline());
    assert!(!l.is_inherited());
    assert_eq!(l.index(), 42);
}

#[test]
fn shared_locator_decodes() {
    let l = EntityIndex::new_shared(7);
    assert!(!l.is_inline());
    assert!(!l.is_inherited());
    assert_eq!(l.index(), 7);
}

#[test]
fn inherited_flag_set_and_cleared() {
    let l = EntityIndex::new_shared(9).with_inherited(true);
    assert!(l.is_inherited());
    assert!(!l.is_inline());
    assert_eq!(l.index(), 9);
    let m = l.with_inherited(false);
    assert!(!m.is_inherited());
    assert_eq!(m, EntityIndex::new_shared(9));
    let n = EntityIndex::null().with_inherited(false);
    assert!(n.is_null());
}

#[test]
fn encode_round_trips_every_field() {
    for inline in [false, true] {
        for inherited in [false, true] {
            let l = EntityIndex::encode(inline, inherited, 12345).unwrap();
            assert_eq!(l.is_inline(), inline);
            assert_eq!(l.is_inherited(), inherited);
            assert_eq!(l.index(), 12345);
            assert!(!l.is_null());
        }
    }
}

#[test]
fn encode_capacity_boundary() {
    let last = INDEX_MASK as usize - 1;
    assert_eq!(last, (1usize << 30) - 2);
    let l = EntityIndex::encode(true, false, last).unwrap();
    assert_eq!(l.index(), last);
    let s = EntityIndex::encode(false, true, last).unwrap();
    assert!(!s.is_null());
    assert!(EntityIndex::encode(true, false, last + 1).is_none());
    assert!(EntityIndex::encode(false, true, last + 1).is_none());
    assert!(EntityIndex::encode(false, false, 1usize << 30).is_none());
}

#[test]
fn table_grows_with_null_padding() {
    let mut t = EntityIndices::new();
    assert_eq!(t.len(), 0);
    t.insert_inline(Entity::new(3, 0), 5);
    assert_eq!(t.len(), 4);
    assert_eq!(t.get(Entity::new(3, 0)), Some(DataIndex::Inline(5)));
    assert_eq!(t.get(Entity::new(1, 0)), None);
    assert_eq!(t.get(Entity::new(10, 0)), None);
    t.insert_shared(Entity::new(1, 0), 2);
    assert_eq!(t.get(Entity::new(1, 0)), Some(DataIndex::Shared(2)));
    assert_eq!(t.len(), 4);
}

#[test]
fn table_overwrite_and_clear() {
    let mut t = EntityIndices::new();
    let e = Entity::new(0, 0);
    t.insert_shared(e, 1);
    t.insert_inline(e, 4);
    assert_eq!(t.get(e), Some(DataIndex::Inline(4)));
    t.clear(e);
    assert_eq!(t.get(e), None);
    assert!(t.locator(e).is_null());
    t.set(e, EntityIndex::new_shared(3).with_inherited(true));
    assert_eq!(t.get(e), Some(DataIndex::Shared(3)));
    assert!(t.locator(e).is_inherited());
}

#[test]
fn entity_accessors() {
    let e = Entity::new(5, 2);
    assert_eq!(e.index(), 5);
    assert_eq!(e.generation(), 2);
    assert!(!e.is_null());
    assert!(Entity::null().is_null());
}
