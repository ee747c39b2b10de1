use vstd::prelude::*;

verus! {

/// The contract between the registry and a columnar storage shape.
///
/// A shape holds one column of optional slots per component type; a row is
/// the tuple of the slots that share one index across all columns. `Row` is
/// the spec-level value of one such row, and `rows` the sequence of rows
/// currently stored. The shape grows and shrinks a whole row at a time, so
/// the columns can never fall out of step with one another.
pub trait ComponentCollection: Sized {
    /// The value of one storage row: one optional slot per column.
    type Row;

    /// True when the shape's columns are aligned, one slot per row each.
    spec fn inv(&self) -> bool;

    /// The rows currently stored, in row order.
    spec fn rows(&self) -> Seq<Self::Row>;

    /// The row in which every slot is empty.
    spec fn empty_row() -> Self::Row;

    /// Appends one empty slot to every column at once.
    fn push_none(&mut self)
        requires
            old(self).inv(),
        ensures
            final(self).inv(),
            final(self).rows() == old(self).rows().push(Self::empty_row()),
    ;

    /// Deletes the slot at `index` from every column at once, shifting every
    /// later row down by one position.
    fn remove(&mut self, index: usize)
        requires
            old(self).inv(),
            index < old(self).rows().len(),
        ensures
            final(self).inv(),
            final(self).rows() == old(self).rows().remove(index as int),
    ;
}

/// Binds one component type to its column inside the storage shape `S`.
///
/// The binding is a lens from a row to the slot for `Self`: `of_row` reads
/// the slot out of a row, `row_with` writes it. The proof obligations are the
/// lens laws; they are what makes "the slot for `Self`" a faithful
/// description, and every implementor proves them for its shape.
pub trait Component<S: ComponentCollection>: Sized {
    /// The slot for `Self` in the row `r`.
    spec fn of_row(r: S::Row) -> Option<Self>;

    /// The row `r` with the slot for `Self` replaced by `v`.
    spec fn row_with(r: S::Row, v: Option<Self>) -> S::Row;

    /// Writing a slot stores exactly the written value, and writing back
    /// what was just read changes nothing.
    proof fn lens_laws(r: S::Row, v: Option<Self>)
        ensures
            Self::of_row(Self::row_with(r, v)) == v,
            Self::row_with(r, Self::of_row(r)) == r,
    ;

    /// A freshly pushed row holds no component.
    proof fn empty_row_law()
        ensures
            Self::of_row(S::empty_row()) == None::<Self>,
    ;

    /// Reads the slot for `Self` at row `index`.
    fn get_slot(s: &S, index: usize) -> (r: &Option<Self>)
        requires
            s.inv(),
            index < s.rows().len(),
        ensures
            *r == Self::of_row(s.rows()[index as int]),
    ;

    /// Overwrites the slot for `Self` at row `index` with `v`, leaving every
    /// other slot of every column as it was.
    fn set_slot(s: &mut S, index: usize, v: Option<Self>)
        requires
            old(s).inv(),
            index < old(s).rows().len(),
        ensures
            final(s).inv(),
            final(s).rows() == old(s).rows().update(
                index as int,
                Self::row_with(old(s).rows()[index as int], v),
            ),
    ;
}

} // verus!
