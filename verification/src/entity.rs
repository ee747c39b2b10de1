use vstd::prelude::*;

verus! {

/// An opaque, copyable identifier for one logical object in a `World`.
///
/// Two entities are equal exactly when their ids are equal. The registry
/// assigns ids from a strictly increasing counter and never reuses one, so an
/// entity that has been removed never comes back to life.
#[derive(Copy, Clone, PartialEq, Eq, Structural, Debug)]
pub struct Entity {
    id: i64,
}

impl View for Entity {
    type V = i64;

    closed spec fn view(&self) -> i64 {
        self.id
    }
}

impl Entity {
    /// Two entities are equal exactly when their ids are equal: the id is all
    /// an entity is.
    pub proof fn lemma_entity_eq(a: Entity, b: Entity)
        ensures
            (a == b) <==> (a@ == b@),
    {
    }

    /// Wraps a raw id. The registry is the intended caller: an entity made
    /// from an id the registry never issued names no row.
    pub fn new(id: i64) -> (e: Entity)
        ensures
            e@ == id,
    {
        Entity { id }
    }

    /// The raw id behind this entity.
    pub fn id(&self) -> (r: i64)
        ensures
            r == self@,
    {
        self.id
    }
}

} // verus!
