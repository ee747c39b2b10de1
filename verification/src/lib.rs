//! An in-memory entity/component store.
//!
//! A [`World`] owns an ordered sequence of live [`Entity`] values and one
//! columnar storage shape: a type implementing [`ComponentCollection`], with
//! one column of optional slots per component type. Every column always has
//! exactly one slot per live entity, in the same row order; that alignment is
//! the central invariant of the store, and every operation here is verified to
//! keep it.
//!
//! Component types are bound to their columns by the [`Component`] trait, a
//! lens from a storage row to the slot for one component type. The join
//! methods [`World::component_iter`] and [`World::component_iter2`] yield the
//! entities holding all requested components, in row order.
//!
//! Storage shapes are written per application, one named column per component
//! type; [`FooBarCollection`] and [`IntStrCollection`] are the two shapes the
//! test suite drives the registry with.

mod entity;
mod shapes;
mod storage;
mod world;

pub use entity::Entity;
pub use shapes::{Bar, Foo, FooBarCollection, FooBarRow, IntStrCollection, IntStrRow};
pub use storage::{Component, ComponentCollection};
/// The storage contract under its shorter name.
pub use storage::ComponentCollection as Components;
pub use world::{
    downcast_components, downcast_components_mut, joined, joined2, row_pair, row_triple, Ecs,
    World,
};
