//! Per-element style property storage with cascade resolution.
//!
//! Each style property has a [`StyleStore`]: a sparse map from element
//! identifiers to values, in two tiers (inline values set explicitly, shared
//! values matched by style rules), with lookups in constant time through a
//! table of packed locators, and resolution that falls back to the nearest
//! ancestor for inheritable properties.
pub mod entity;
pub mod locator;
pub mod indices;
pub mod store;
pub mod tree;

pub use entity::Entity;
pub use indices::EntityIndices;
pub use locator::{DataIndex, EntityIndex, RuleIndex};
pub use store::{Entry, StoreError, StyleStore};
pub use tree::Tree;
