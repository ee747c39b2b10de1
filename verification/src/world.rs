use crate::entity::Entity;
use crate::storage::{Component, ComponentCollection};
use vstd::prelude::*;

verus! {

/// The registry: owns the live entities and one columnar storage shape.
///
/// Every live entity occupies exactly one row, and the storage holds exactly
/// one row per live entity, in the same order; `wf` states that alignment
/// together with the id discipline (ids strictly increasing in row order, all
/// below the issue counter), and every operation preserves it.
pub struct World<S: ComponentCollection> {
    entity_count: i64,
    entities: Vec<Entity>,
    components: S,
}

/// The registry under its short name.
pub type Ecs<S> = World<S>;

/// Whether some entity in `s` carries the id `id`.
spec fn seq_has_id(s: Seq<Entity>, id: i64) -> bool {
    exists|i: int| 0 <= i < s.len() && #[trigger] s[i]@ == id
}

/// The row of an entity in `s` carrying the id `id`, where there is one.
spec fn seq_row_of_id(s: Seq<Entity>, id: i64) -> int {
    choose|i: int| 0 <= i < s.len() && #[trigger] s[i]@ == id
}

impl<S: ComponentCollection> World<S> {
    /// The ids issued so far are exactly `0 .. counter()`, in that order.
    pub closed spec fn counter(&self) -> i64 {
        self.entity_count
    }

    /// The live entities, in row order.
    pub closed spec fn entity_seq(&self) -> Seq<Entity> {
        self.entities@
    }

    /// The storage rows, in row order.
    pub closed spec fn rows(&self) -> Seq<S::Row> {
        self.components.rows()
    }

    /// The storage shape itself.
    pub closed spec fn storage(&self) -> S {
        self.components
    }

    /// Well-formed: the storage is aligned with the entity sequence, and ids
    /// are strictly increasing in row order, all below the counter.
    pub closed spec fn wf(&self) -> bool {
        &&& self.components.inv()
        &&& self.components.rows().len() == self.entities@.len()
        &&& 0 <= self.entity_count
        &&& forall|i: int, j: int|
            0 <= i < j < self.entities@.len() ==> #[trigger] self.entities@[i]@
                < #[trigger] self.entities@[j]@
        &&& forall|i: int|
            0 <= i < self.entities@.len() ==> #[trigger] self.entities@[i]@ < self.entity_count
    }

    /// True when `e`'s id has a row.
    pub closed spec fn alive(&self, e: Entity) -> bool {
        seq_has_id(self.entities@, e@)
    }

    /// The row that `e` occupies; meaningful only while `e` is alive.
    pub closed spec fn row_of(&self, e: Entity) -> int {
        seq_row_of_id(self.entities@, e@)
    }

    /// The storage row that `e` occupies.
    pub closed spec fn row_value(&self, e: Entity) -> S::Row {
        self.components.rows()[self.row_of(e)]
    }

    /// The component of type `C` that `e` holds, if any.
    pub closed spec fn component_of<C: Component<S>>(&self, e: Entity) -> Option<C> {
        C::of_row(self.row_value(e))
    }

    /// The alignment invariant: in every well-formed registry the entity
    /// sequence and the storage have the same length. Each storage shape owes
    /// the matching fact that all of its columns have that length; see
    /// `ComponentCollection::inv`.
    pub proof fn lemma_aligned(&self)
        requires
            self.wf(),
        ensures
            self.entity_seq().len() == self.rows().len(),
    {
    }

    /// Live ids are strictly increasing in row order — so pairwise distinct —
    /// and all below the counter. Since `new_entity` issues exactly the
    /// counter and raises it by one, and no other operation changes the
    /// counter, ids are issued strictly increasing and never reused.
    pub proof fn lemma_ids_strictly_increasing(&self)
        requires
            self.wf(),
        ensures
            forall|i: int, j: int|
                0 <= i < j < self.entity_seq().len() ==> #[trigger] self.entity_seq()[i]@
                    < #[trigger] self.entity_seq()[j]@,
            forall|i: int|
                0 <= i < self.entity_seq().len() ==> #[trigger] self.entity_seq()[i]@
                    < self.counter(),
    {
    }

    /// While `e` is alive, `row_of` names a real row that carries `e`'s id.
    pub proof fn lemma_row_of(&self, e: Entity)
        requires
            self.alive(e),
        ensures
            0 <= self.row_of(e) < self.entity_seq().len(),
            self.entity_seq()[self.row_of(e)]@ == e@,
    {
    }

    /// In a well-formed registry, ids are distinct, so any row that carries
    /// `e`'s id is the row `row_of` names.
    pub proof fn lemma_row_of_is(&self, e: Entity, i: int)
        requires
            self.wf(),
            0 <= i < self.entity_seq().len(),
            self.entity_seq()[i]@ == e@,
        ensures
            self.alive(e),
            self.row_of(e) == i,
    {
        assert(self.alive(e));
        let j = self.row_of(e);
        assert(0 <= j < self.entities@.len() && self.entities@[j]@ == e@);
        if i < j {
            assert(self.entities@[i]@ < self.entities@[j]@);
        } else if j < i {
            assert(self.entities@[j]@ < self.entities@[i]@);
        }
    }

    /// What the component model means: the component of type `C` on `e` is
    /// the `C` slot of the storage row `e` occupies.
    pub proof fn lemma_component_is_slot<C: Component<S>>(&self, e: Entity)
        ensures
            self.row_value(e) == self.rows()[self.row_of(e)],
            self.component_of::<C>(e) == C::of_row(self.rows()[self.row_of(e)]),
    {
    }

    /// Makes a registry over `components`, which must be empty so that the
    /// alignment invariant starts out true.
    pub fn new(components: S) -> (w: World<S>)
        requires
            components.inv(),
            components.rows().len() == 0,
        ensures
            w.wf(),
            w.counter() == 0,
            w.entity_seq().len() == 0,
            w.rows().len() == 0,
            w.storage() == components,
    {
        World { entity_count: 0, entities: Vec::new(), components }
    }

    /// Issues a fresh entity: its id is the counter, every column gains one
    /// empty slot, and the entity takes the last row. The id was never issued
    /// before, so the entity was not alive; it is now.
    pub fn new_entity(&mut self) -> (e: Entity)
        requires
            old(self).wf(),
            old(self).counter() < i64::MAX,
        ensures
            final(self).wf(),
            e@ == old(self).counter(),
            !old(self).alive(e),
            final(self).alive(e),
            final(self).counter() == old(self).counter() + 1,
            final(self).entity_seq() == old(self).entity_seq().push(e),
            final(self).rows() == old(self).rows().push(S::empty_row()),
            forall|other: Entity|
                #[trigger] final(self).alive(other) == (old(self).alive(other) || other@ == e@),
            forall|other: Entity|
                #[trigger] old(self).alive(other) ==> final(self).row_value(other) == old(
                    self,
                ).row_value(other),
    {
        let id = self.entity_count;
        self.entity_count = self.entity_count + 1;
        self.components.push_none();
        let e = Entity::new(id);
        self.entities.push(e);
        proof {
            let s0 = old(self).entities@;
            let s1 = self.entities@;
            assert(s1[s1.len() - 1]@ == e@);
            assert forall|other: Entity|
                self.alive(other) == (old(self).alive(other) || other@ == e@) by {
                if seq_has_id(s0, other@) {
                    let k = choose|k: int| 0 <= k < s0.len() && #[trigger] s0[k]@ == other@;
                    assert(s1[k]@ == other@);
                }
                if seq_has_id(s1, other@) && other@ != e@ {
                    let k = choose|k: int| 0 <= k < s1.len() && #[trigger] s1[k]@ == other@;
                    assert(k < s0.len());
                    assert(s0[k]@ == other@);
                }
            }
            assert forall|other: Entity|
                #[trigger] old(self).alive(other) implies self.row_value(other) == old(
                self,
            ).row_value(other) by {
                old(self).lemma_row_of(other);
                let j = old(self).row_of(other);
                assert(self.wf());
                self.lemma_row_of_is(other, j);
                assert(self.components.rows()[j] == old(self).rows()[j]);
            }
        }
        e
    }

    /// Removes `entity`: its row leaves the entity sequence and every column
    /// at once, and every later row shifts down by one, keeping its order.
    /// Every other live entity stays alive and keeps its whole row.
    pub fn remove_entity(&mut self, entity: Entity)
        requires
            old(self).wf(),
            old(self).alive(entity),
        ensures
            final(self).wf(),
            final(self).counter() == old(self).counter(),
            final(self).entity_seq() == old(self).entity_seq().remove(old(self).row_of(entity)),
            final(self).rows() == old(self).rows().remove(old(self).row_of(entity)),
            !final(self).alive(entity),
            forall|other: Entity|
                #[trigger] final(self).alive(other) == (old(self).alive(other) && other@
                    != entity@),
            forall|other: Entity|
                #[trigger] old(self).alive(other) && other@ != entity@ ==> final(self).row_value(
                    other,
                ) == old(self).row_value(other),
    {
        let index = self.get_index(entity).unwrap();
        proof {
            old(self).lemma_row_of_is(entity, index as int);
        }
        self.entities.remove(index);
        self.components.remove(index);
        proof {
            let i = index as int;
            let oe = old(self).entity_seq();
            let or = old(self).rows();
            oe.remove_ensures(i);
            or.remove_ensures(i);
            assert forall|p: int, q: int| 0 <= p < q < self.entities@.len() implies self.entities@[p]@
                < self.entities@[q]@ by {
                let p0: int = if p < i { p } else { p + 1 };
                let q0: int = if q < i { q } else { q + 1 };
                assert(self.entities@[p] == oe[p0]);
                assert(self.entities@[q] == oe[q0]);
                assert(oe[p0]@ < oe[q0]@);
            }
            assert forall|p: int| 0 <= p < self.entities@.len() implies self.entities@[p]@
                < self.entity_count by {
                let p0: int = if p < i { p } else { p + 1 };
                assert(self.entities@[p] == oe[p0]);
            }
            assert(self.wf());
            assert forall|k: int| 0 <= k < self.entities@.len() implies self.entities@[k]@
                != entity@ by {
                let k0: int = if k < i { k } else { k + 1 };
                assert(self.entities@[k] == oe[k0]);
                if k0 < i {
                    assert(oe[k0]@ < oe[i]@);
                } else {
                    assert(oe[i]@ < oe[k0]@);
                }
            }
            assert(!self.alive(entity));
            assert forall|other: Entity|
                self.alive(other) == (old(self).alive(other) && other@ != entity@) by {
                if self.alive(other) {
                    let k = choose|k: int|
                        0 <= k < self.entities@.len() && #[trigger] self.entities@[k]@ == other@;
                    let k0: int = if k < i { k } else { k + 1 };
                    assert(self.entities@[k] == oe[k0]);
                    assert(other@ != entity@);
                }
                if old(self).alive(other) && other@ != entity@ {
                    old(self).lemma_row_of(other);
                    let j = old(self).row_of(other);
                    let j2: int = if j < i { j } else { j - 1 };
                    assert(self.entities@[j2] == oe[j]);
                }
            }
            assert forall|other: Entity|
                #[trigger] old(self).alive(other) && other@ != entity@ implies self.row_value(
                other,
            ) == old(self).row_value(other) by {
                old(self).lemma_row_of(other);
                let j = old(self).row_of(other);
                let j2: int = if j < i { j } else { j - 1 };
                assert(self.entities@[j2] == oe[j]);
                self.lemma_row_of_is(other, j2);
                assert(self.components.rows()[j2] == or[j]);
            }
        }
    }

    /// The component of type `C` on `entity`, if its slot is filled. An empty
    /// slot is the normal "absent" answer, not an error.
    pub fn get_component<C: Component<S>>(&self, entity: Entity) -> (r: Option<&C>)
        requires
            self.wf(),
            self.alive(entity),
        ensures
            match r {
                Some(c) => self.component_of::<C>(entity) == Some(*c),
                None => self.component_of::<C>(entity) is None,
            },
    {
        let index = self.get_index(entity).unwrap();
        proof {
            self.lemma_row_of_is(entity, index as int);
        }
        let slot = C::get_slot(&self.components, index);
        match slot {
            Some(c) => Some(c),
            None => None,
        }
    }

    /// Attaches `component` to `entity`, overwriting whatever the slot for
    /// `C` held before: afterwards the entity holds exactly this value. No
    /// other slot of any entity changes, and nobody's liveness changes.
    pub fn add_component<C: Component<S>>(&mut self, entity: Entity, component: C)
        requires
            old(self).wf(),
            old(self).alive(entity),
        ensures
            final(self).wf(),
            final(self).counter() == old(self).counter(),
            final(self).entity_seq() == old(self).entity_seq(),
            final(self).rows() == old(self).rows().update(
                old(self).row_of(entity),
                C::row_with(old(self).row_value(entity), Some(component)),
            ),
            final(self).component_of::<C>(entity) == Some(component),
            forall|other: Entity| final(self).alive(other) == #[trigger] old(self).alive(other),
            forall|other: Entity|
                #[trigger] old(self).alive(other) && other@ != entity@ ==> final(self).row_value(
                    other,
                ) == old(self).row_value(other),
    {
        let index = self.get_index(entity).unwrap();
        proof {
            old(self).lemma_row_of_is(entity, index as int);
        }
        C::set_slot(&mut self.components, index, Some(component));
        proof {
            self.lemma_slot_written::<C>(*old(self), entity, index as int, Some(component));
        }
    }

    /// Clears the slot for `C` on `entity`. Clearing an already empty slot
    /// changes nothing, so removing the same component twice is safe: the
    /// second call is a no-op.
    pub fn remove_component<C: Component<S>>(&mut self, entity: Entity)
        requires
            old(self).wf(),
            old(self).alive(entity),
        ensures
            final(self).wf(),
            final(self).counter() == old(self).counter(),
            final(self).entity_seq() == old(self).entity_seq(),
            final(self).rows() == old(self).rows().update(
                old(self).row_of(entity),
                C::row_with(old(self).row_value(entity), None),
            ),
            final(self).component_of::<C>(entity) is None,
            old(self).component_of::<C>(entity) is None ==> final(self).rows() == old(
                self,
            ).rows(),
            forall|other: Entity| final(self).alive(other) == #[trigger] old(self).alive(other),
            forall|other: Entity|
                #[trigger] old(self).alive(other) && other@ != entity@ ==> final(self).row_value(
                    other,
                ) == old(self).row_value(other),
    {
        let index = self.get_index(entity).unwrap();
        proof {
            old(self).lemma_row_of_is(entity, index as int);
        }
        C::set_slot(&mut self.components, index, None);
        proof {
            self.lemma_slot_written::<C>(*old(self), entity, index as int, None);
            if old(self).component_of::<C>(entity) is None {
                let r = old(self).rows()[index as int];
                assert(C::of_row(r) is None);
                C::lens_laws(r, None);
                assert(C::row_with(r, C::of_row(r)) == r);
                assert(C::row_with(r, None) == r);
                assert(self.components.rows() =~= old(self).rows());
            }
        }
    }

    /// After `set_slot` wrote `v` into `entity`'s row, the registry is still
    /// well-formed, `entity` holds exactly `v`, and every other entity keeps
    /// its row.
    proof fn lemma_slot_written<C: Component<S>>(
        &self,
        pre: World<S>,
        entity: Entity,
        i: int,
        v: Option<C>,
    )
        requires
            pre.wf(),
            0 <= i < pre.entity_seq().len(),
            pre.entity_seq()[i]@ == entity@,
            self.entities@ == pre.entities@,
            self.entity_count == pre.entity_count,
            self.components.inv(),
            self.components.rows() == pre.rows().update(i, C::row_with(pre.rows()[i], v)),
        ensures
            self.wf(),
            self.component_of::<C>(entity) == v,
            self.rows() == pre.rows().update(pre.row_of(entity), C::row_with(pre.row_value(entity), v)),
            forall|other: Entity| self.alive(other) == #[trigger] pre.alive(other),
            forall|other: Entity|
                #[trigger] pre.alive(other) && other@ != entity@ ==> self.row_value(other)
                    == pre.row_value(other),
    {
        pre.lemma_row_of_is(entity, i);
        assert(self.wf());
        self.lemma_row_of_is(entity, i);
        C::lens_laws(pre.rows()[i], v);
        assert forall|other: Entity|
            #[trigger] pre.alive(other) && other@ != entity@ implies self.row_value(other)
            == pre.row_value(other) by {
            pre.lemma_row_of(other);
            let j = pre.row_of(other);
            self.lemma_row_of_is(other, j);
        }
    }

    /// The row of the first entity whose id matches, if any.
    fn get_index(&self, entity: Entity) -> (r: Option<usize>)
        ensures
            match r {
                Some(i) => {
                    &&& i < self.entity_seq().len()
                    &&& self.entity_seq()[i as int]@ == entity@
                    &&& forall|j: int| 0 <= j < i ==> #[trigger] self.entity_seq()[j]@ != entity@
                },
                None => !self.alive(entity),
            },
    {
        let n = self.entities.len();
        let mut i: usize = 0;
        while i < n
            invariant
                i <= n,
                n == self.entities@.len(),
                forall|j: int| 0 <= j < i ==> #[trigger] self.entities@[j]@ != entity@,
            decreases n - i,
        {
            if self.entities[i].id() == entity.id() {
                return Some(i);
            }
            i = i + 1;
        }
        None
    }

    /// True exactly when `entity` currently has a row. Never fatal.
    pub fn is_alive(&self, entity: Entity) -> (r: bool)
        ensures
            r == self.alive(entity),
    {
        self.get_index(entity).is_some()
    }

    /// The live entities, in row order.
    pub fn entities(&self) -> (r: &Vec<Entity>)
        ensures
            r@ == self.entity_seq(),
    {
        &self.entities
    }
}

/// The join over one component type: the pairs (component, owning entity) of
/// exactly the rows whose `C` slot is filled, in row order.
pub open spec fn joined<S: ComponentCollection, C: Component<S>>(
    rows: Seq<S::Row>,
    ents: Seq<Entity>,
) -> Seq<(C, Entity)>
    decreases rows.len(),
{
    if rows.len() == 0 || ents.len() == 0 {
        Seq::empty()
    } else {
        let prefix = joined::<S, C>(rows.drop_last(), ents.drop_last());
        match C::of_row(rows.last()) {
            Some(c) => prefix.push((c, ents.last())),
            None => prefix,
        }
    }
}

/// The join over two component types: the triples of exactly the rows where
/// both slots are filled, in row order. Joins over more component types
/// follow the same pattern.
pub open spec fn joined2<S: ComponentCollection, C0: Component<S>, C1: Component<S>>(
    rows: Seq<S::Row>,
    ents: Seq<Entity>,
) -> Seq<(C0, C1, Entity)>
    decreases rows.len(),
{
    if rows.len() == 0 || ents.len() == 0 {
        Seq::empty()
    } else {
        let prefix = joined2::<S, C0, C1>(rows.drop_last(), ents.drop_last());
        match (C0::of_row(rows.last()), C1::of_row(rows.last())) {
            (Some(c0), Some(c1)) => prefix.push((c0, c1, ents.last())),
            _ => prefix,
        }
    }
}

/// One yielded join row, with the component reference read through.
pub open spec fn row_pair<C>(p: (&C, Entity)) -> (C, Entity) {
    (*p.0, p.1)
}

/// Whether `p` reads one of the rows: its component is that row's `C` slot
/// and its entity that row's owner.
spec fn pair_from_row<S: ComponentCollection, C: Component<S>>(
    rows: Seq<S::Row>,
    ents: Seq<Entity>,
    p: (C, Entity),
) -> bool {
    exists|i: int|
        0 <= i < rows.len() && #[trigger] C::of_row(rows[i]) == Some(p.0) && ents[i] == p.1
}

/// Whether `p` reads one of the rows at both slots.
spec fn triple_from_row<S: ComponentCollection, C0: Component<S>, C1: Component<S>>(
    rows: Seq<S::Row>,
    ents: Seq<Entity>,
    p: (C0, C1, Entity),
) -> bool {
    exists|i: int|
        0 <= i < rows.len() && #[trigger] C0::of_row(rows[i]) == Some(p.0) && C1::of_row(rows[i])
            == Some(p.1) && ents[i] == p.2
}

/// Every filled `C` slot contributes its pair to the join.
proof fn lemma_joined_complete<S: ComponentCollection, C: Component<S>>(
    rows: Seq<S::Row>,
    ents: Seq<Entity>,
    i: int,
    c: C,
)
    requires
        rows.len() == ents.len(),
        0 <= i < rows.len(),
        C::of_row(rows[i]) == Some(c),
    ensures
        joined::<S, C>(rows, ents).contains((c, ents[i])),
    decreases rows.len(),
{
    let j = joined::<S, C>(rows, ents);
    if i == rows.len() - 1 {
        assert(j[j.len() - 1] == (c, ents[i]));
    } else {
        let rp = rows.drop_last();
        let ep = ents.drop_last();
        lemma_joined_complete::<S, C>(rp, ep, i, c);
        let p = joined::<S, C>(rp, ep);
        let k = choose|k: int| 0 <= k < p.len() && #[trigger] p[k] == (c, ep[i]);
        assert(ep[i] == ents[i]);
        assert(j[k] == (c, ents[i]));
    }
    assert(j.contains((c, ents[i])));
}

/// Everything the join yields reads some row.
proof fn lemma_joined_members<S: ComponentCollection, C: Component<S>>(
    rows: Seq<S::Row>,
    ents: Seq<Entity>,
)
    requires
        rows.len() == ents.len(),
    ensures
        forall|k: int|
            0 <= k < joined::<S, C>(rows, ents).len() ==> #[trigger] pair_from_row::<S, C>(
                rows,
                ents,
                joined::<S, C>(rows, ents)[k],
            ),
    decreases rows.len(),
{
    if rows.len() == 0 || ents.len() == 0 {
    } else {
        let rp = rows.drop_last();
        let ep = ents.drop_last();
        lemma_joined_members::<S, C>(rp, ep);
        let p = joined::<S, C>(rp, ep);
        let j = joined::<S, C>(rows, ents);
        assert forall|k: int| 0 <= k < j.len() implies pair_from_row::<S, C>(rows, ents, j[k]) by {
            if k < p.len() {
                assert(pair_from_row::<S, C>(rp, ep, p[k]));
                let i = choose|i: int|
                    0 <= i < rp.len() && #[trigger] C::of_row(rp[i]) == Some(p[k].0) && ep[i]
                        == p[k].1;
                assert(rp[i] == rows[i]);
                assert(ep[i] == ents[i]);
                assert(j[k] == p[k]);
                assert(C::of_row(rows[i]) == Some(j[k].0));
            } else {
                let i = rows.len() - 1;
                assert(C::of_row(rows[i]) == Some(j[k].0));
            }
        }
    }
}

/// Every row with both slots filled contributes its triple to the join.
proof fn lemma_joined2_complete<S: ComponentCollection, C0: Component<S>, C1: Component<S>>(
    rows: Seq<S::Row>,
    ents: Seq<Entity>,
    i: int,
    c0: C0,
    c1: C1,
)
    requires
        rows.len() == ents.len(),
        0 <= i < rows.len(),
        C0::of_row(rows[i]) == Some(c0),
        C1::of_row(rows[i]) == Some(c1),
    ensures
        joined2::<S, C0, C1>(rows, ents).contains((c0, c1, ents[i])),
    decreases rows.len(),
{
    let j = joined2::<S, C0, C1>(rows, ents);
    if i == rows.len() - 1 {
        assert(j[j.len() - 1] == (c0, c1, ents[i]));
    } else {
        let rp = rows.drop_last();
        let ep = ents.drop_last();
        lemma_joined2_complete::<S, C0, C1>(rp, ep, i, c0, c1);
        let p = joined2::<S, C0, C1>(rp, ep);
        let k = choose|k: int| 0 <= k < p.len() && #[trigger] p[k] == (c0, c1, ep[i]);
        assert(ep[i] == ents[i]);
        assert(j[k] == (c0, c1, ents[i]));
    }
    assert(j.contains((c0, c1, ents[i])));
}

/// Everything the two-column join yields reads some row at both slots.
proof fn lemma_joined2_members<S: ComponentCollection, C0: Component<S>, C1: Component<S>>(
    rows: Seq<S::Row>,
    ents: Seq<Entity>,
)
    requires
        rows.len() == ents.len(),
    ensures
        forall|k: int|
            0 <= k < joined2::<S, C0, C1>(rows, ents).len() ==> #[trigger] triple_from_row::<
                S,
                C0,
                C1,
            >(rows, ents, joined2::<S, C0, C1>(rows, ents)[k]),
    decreases rows.len(),
{
    if rows.len() == 0 || ents.len() == 0 {
    } else {
        let rp = rows.drop_last();
        let ep = ents.drop_last();
        lemma_joined2_members::<S, C0, C1>(rp, ep);
        let p = joined2::<S, C0, C1>(rp, ep);
        let j = joined2::<S, C0, C1>(rows, ents);
        assert forall|k: int| 0 <= k < j.len() implies triple_from_row::<S, C0, C1>(
            rows,
            ents,
            j[k],
        ) by {
            if k < p.len() {
                assert(triple_from_row::<S, C0, C1>(rp, ep, p[k]));
                let i = choose|i: int|
                    0 <= i < rp.len() && #[trigger] C0::of_row(rp[i]) == Some(p[k].0)
                        && C1::of_row(rp[i]) == Some(p[k].1) && ep[i] == p[k].2;
                assert(rp[i] == rows[i]);
                assert(ep[i] == ents[i]);
                assert(j[k] == p[k]);
                assert(C0::of_row(rows[i]) == Some(j[k].0));
            } else {
                let i = rows.len() - 1;
                assert(C0::of_row(rows[i]) == Some(j[k].0));
            }
        }
    }
}

/// One yielded two-column join row, with the references read through.
pub open spec fn row_triple<C0, C1>(p: (&C0, &C1, Entity)) -> (C0, C1, Entity) {
    (*p.0, *p.1, p.2)
}

impl<S: ComponentCollection> World<S> {
    /// One pass of the single-column join: every live entity whose `C` slot
    /// is filled, paired with a reference to the component, in row order.
    /// An entity whose slot is empty is skipped, never an error.
    pub fn component_iter<C: Component<S>>(&self) -> (r: Vec<(&C, Entity)>)
        requires
            self.wf(),
        ensures
            r@.len() == joined::<S, C>(self.rows(), self.entity_seq()).len(),
            forall|k: int|
                0 <= k < r@.len() ==> #[trigger] row_pair(r@[k]) == joined::<S, C>(
                    self.rows(),
                    self.entity_seq(),
                )[k],
    {
        let mut out: Vec<(&C, Entity)> = Vec::new();
        let n = self.entities.len();
        let mut i: usize = 0;
        while i < n
            invariant
                self.wf(),
                n == self.entity_seq().len(),
                n == self.rows().len(),
                i <= n,
                out@.len() == joined::<S, C>(
                    self.rows().take(i as int),
                    self.entity_seq().take(i as int),
                ).len(),
                forall|k: int|
                    0 <= k < out@.len() ==> #[trigger] row_pair(out@[k]) == joined::<S, C>(
                        self.rows().take(i as int),
                        self.entity_seq().take(i as int),
                    )[k],
            decreases n - i,
        {
            proof {
                let ii = i as int;
                assert(self.rows().take(ii + 1).drop_last() =~= self.rows().take(ii));
                assert(self.entity_seq().take(ii + 1).drop_last() =~= self.entity_seq().take(ii));
                assert(self.rows().take(ii + 1).last() == self.rows()[ii]);
                assert(self.entity_seq().take(ii + 1).last() == self.entity_seq()[ii]);
            }
            let slot = C::get_slot(&self.components, i);
            match slot {
                Some(c) => {
                    let e = self.entities[i];
                    out.push((c, e));
                },
                None => {},
            }
            i = i + 1;
        }
        proof {
            assert(self.rows().take(n as int) =~= self.rows());
            assert(self.entity_seq().take(n as int) =~= self.entity_seq());
        }
        out
    }

    /// One pass of the two-column join: every live entity holding both a `C0`
    /// and a `C1`, with references to both components, in row order. A row
    /// missing either slot is skipped, never an error.
    pub fn component_iter2<C0: Component<S>, C1: Component<S>>(&self) -> (r: Vec<
        (&C0, &C1, Entity),
    >)
        requires
            self.wf(),
        ensures
            r@.len() == joined2::<S, C0, C1>(self.rows(), self.entity_seq()).len(),
            forall|k: int|
                0 <= k < r@.len() ==> #[trigger] row_triple(r@[k]) == joined2::<S, C0, C1>(
                    self.rows(),
                    self.entity_seq(),
                )[k],
    {
        let mut out: Vec<(&C0, &C1, Entity)> = Vec::new();
        let n = self.entities.len();
        let mut i: usize = 0;
        while i < n
            invariant
                self.wf(),
                n == self.entity_seq().len(),
                n == self.rows().len(),
                i <= n,
                out@.len() == joined2::<S, C0, C1>(
                    self.rows().take(i as int),
                    self.entity_seq().take(i as int),
                ).len(),
                forall|k: int|
                    0 <= k < out@.len() ==> #[trigger] row_triple(out@[k]) == joined2::<S, C0, C1>(
                        self.rows().take(i as int),
                        self.entity_seq().take(i as int),
                    )[k],
            decreases n - i,
        {
            proof {
                let ii = i as int;
                assert(self.rows().take(ii + 1).drop_last() =~= self.rows().take(ii));
                assert(self.entity_seq().take(ii + 1).drop_last() =~= self.entity_seq().take(ii));
                assert(self.rows().take(ii + 1).last() == self.rows()[ii]);
                assert(self.entity_seq().take(ii + 1).last() == self.entity_seq()[ii]);
            }
            let slot0 = C0::get_slot(&self.components, i);
            let slot1 = C1::get_slot(&self.components, i);
            match (slot0, slot1) {
                (Some(c0), Some(c1)) => {
                    let e = self.entities[i];
                    out.push((c0, c1, e));
                },
                _ => {},
            }
            i = i + 1;
        }
        proof {
            assert(self.rows().take(n as int) =~= self.rows());
            assert(self.entity_seq().take(n as int) =~= self.entity_seq());
        }
        out
    }
}

impl<S: ComponentCollection> World<S> {
    /// Join soundness: whatever the single-column join yields is a live
    /// entity together with exactly the component it holds.
    pub proof fn lemma_join_members<C: Component<S>>(&self)
        requires
            self.wf(),
        ensures
            forall|k: int|
                0 <= k < joined::<S, C>(self.rows(), self.entity_seq()).len() ==> self.alive(
                    (#[trigger] joined::<S, C>(self.rows(), self.entity_seq())[k]).1,
                ) && self.component_of::<C>(
                    joined::<S, C>(self.rows(), self.entity_seq())[k].1,
                ) == Some(joined::<S, C>(self.rows(), self.entity_seq())[k].0),
    {
        let rows = self.rows();
        let ents = self.entity_seq();
        lemma_joined_members::<S, C>(rows, ents);
        let j = joined::<S, C>(rows, ents);
        assert forall|k: int| 0 <= k < j.len() implies self.alive(j[k].1)
            && self.component_of::<C>(j[k].1) == Some(j[k].0) by {
            assert(pair_from_row::<S, C>(rows, ents, j[k]));
            let i = choose|i: int|
                0 <= i < rows.len() && #[trigger] C::of_row(rows[i]) == Some(j[k].0) && ents[i]
                    == j[k].1;
            self.lemma_row_of_is(j[k].1, i);
        }
    }

    /// Join completeness: a live entity that holds a `C` appears in the
    /// single-column join, with exactly that component.
    pub proof fn lemma_join_has_entity<C: Component<S>>(&self, e: Entity, c: C)
        requires
            self.wf(),
            self.alive(e),
            self.component_of::<C>(e) == Some(c),
        ensures
            joined::<S, C>(self.rows(), self.entity_seq()).contains((c, e)),
    {
        self.lemma_row_of(e);
        let i = self.row_of(e);
        Entity::lemma_entity_eq(self.entity_seq()[i], e);
        lemma_joined_complete::<S, C>(self.rows(), self.entity_seq(), i, c);
    }

    /// Two-column join soundness: whatever the join yields is a live entity
    /// together with exactly the two components it holds.
    pub proof fn lemma_join2_members<C0: Component<S>, C1: Component<S>>(&self)
        requires
            self.wf(),
        ensures
            forall|k: int|
                0 <= k < joined2::<S, C0, C1>(self.rows(), self.entity_seq()).len() ==> self.alive(
                    (#[trigger] joined2::<S, C0, C1>(self.rows(), self.entity_seq())[k]).2,
                ) && self.component_of::<C0>(
                    joined2::<S, C0, C1>(self.rows(), self.entity_seq())[k].2,
                ) == Some(joined2::<S, C0, C1>(self.rows(), self.entity_seq())[k].0)
                    && self.component_of::<C1>(
                    joined2::<S, C0, C1>(self.rows(), self.entity_seq())[k].2,
                ) == Some(joined2::<S, C0, C1>(self.rows(), self.entity_seq())[k].1),
    {
        let rows = self.rows();
        let ents = self.entity_seq();
        lemma_joined2_members::<S, C0, C1>(rows, ents);
        let j = joined2::<S, C0, C1>(rows, ents);
        assert forall|k: int| 0 <= k < j.len() implies self.alive(j[k].2)
            && self.component_of::<C0>(j[k].2) == Some(j[k].0) && self.component_of::<C1>(j[k].2)
            == Some(j[k].1) by {
            assert(triple_from_row::<S, C0, C1>(rows, ents, j[k]));
            let i = choose|i: int|
                0 <= i < rows.len() && #[trigger] C0::of_row(rows[i]) == Some(j[k].0)
                    && C1::of_row(rows[i]) == Some(j[k].1) && ents[i] == j[k].2;
            self.lemma_row_of_is(j[k].2, i);
        }
    }

    /// Two-column join completeness: a live entity that holds both a `C0` and
    /// a `C1` appears in the join, with exactly those components.
    pub proof fn lemma_join2_has_entity<C0: Component<S>, C1: Component<S>>(
        &self,
        e: Entity,
        c0: C0,
        c1: C1,
    )
        requires
            self.wf(),
            self.alive(e),
            self.component_of::<C0>(e) == Some(c0),
            self.component_of::<C1>(e) == Some(c1),
        ensures
            joined2::<S, C0, C1>(self.rows(), self.entity_seq()).contains((c0, c1, e)),
    {
        self.lemma_row_of(e);
        let i = self.row_of(e);
        Entity::lemma_entity_eq(self.entity_seq()[i], e);
        lemma_joined2_complete::<S, C0, C1>(self.rows(), self.entity_seq(), i, c0, c1);
    }
}

/// Borrows the concrete storage shape back out of the registry, which
/// otherwise handles it only through the storage contract.
pub fn downcast_components<S: ComponentCollection>(w: &World<S>) -> (r: &S)
    ensures
        *r == w.storage(),
{
    &w.components
}

/// Mutably borrows the concrete storage shape back out of the registry. The
/// entities and the counter are untouched, whatever the caller writes through
/// the borrow.
pub fn downcast_components_mut<S: ComponentCollection>(w: &mut World<S>) -> (r: &mut S)
    ensures
        *r == old(w).storage(),
        final(w).storage() == *final(r),
        final(w).entity_seq() == old(w).entity_seq(),
        final(w).counter() == old(w).counter(),
{
    &mut w.components
}

} // verus!
