use crate::storage::{Component, ComponentCollection};
use vstd::prelude::*;

verus! {

// Storage shapes are written per application, one named column per component
// type. The two shapes here are the ones the test suite drives the registry
// with; they double as the reference implementations of the storage contract.

/// A sample component holding one integer.
#[derive(Debug, PartialEq)]
pub struct Foo {
    pub m: i32,
}

/// A sample component holding one string.
#[derive(Debug, PartialEq)]
pub struct Bar {
    pub m: String,
}

/// One row of a [`FooBarCollection`]: a slot for each of `Foo` and `Bar`.
pub struct FooBarRow {
    pub foo: Option<Foo>,
    pub bar: Option<Bar>,
}

/// A storage shape with a `Foo` column and a `Bar` column.
pub struct FooBarCollection {
    foos: Vec<Option<Foo>>,
    bars: Vec<Option<Bar>>,
}

impl FooBarCollection {
    /// An empty shape: both columns empty.
    pub fn new() -> (s: FooBarCollection)
        ensures
            s.inv(),
            s.rows().len() == 0,
    {
        FooBarCollection { foos: Vec::new(), bars: Vec::new() }
    }

    /// The `Foo` column.
    pub closed spec fn foo_column(&self) -> Seq<Option<Foo>> {
        self.foos@
    }

    /// The `Bar` column.
    pub closed spec fn bar_column(&self) -> Seq<Option<Bar>> {
        self.bars@
    }

    /// The alignment invariant, concretely: each column has exactly one slot
    /// per row, and a row is the pair of the slots at its index.
    pub proof fn lemma_columns_aligned(&self)
        requires
            self.inv(),
        ensures
            self.foo_column().len() == self.rows().len(),
            self.bar_column().len() == self.rows().len(),
            forall|i: int|
                0 <= i < self.rows().len() ==> #[trigger] self.rows()[i] == (FooBarRow {
                    foo: self.foo_column()[i],
                    bar: self.bar_column()[i],
                }),
    {
    }
}

impl ComponentCollection for FooBarCollection {
    type Row = FooBarRow;

    closed spec fn inv(&self) -> bool {
        self.foos@.len() == self.bars@.len()
    }

    closed spec fn rows(&self) -> Seq<FooBarRow> {
        Seq::new(
            self.foos@.len(),
            |i: int| FooBarRow { foo: self.foos@[i], bar: self.bars@[i] },
        )
    }

    open spec fn empty_row() -> FooBarRow {
        FooBarRow { foo: None, bar: None }
    }

    fn push_none(&mut self) {
        self.foos.push(None);
        self.bars.push(None);
        proof {
            assert(self.rows() =~= old(self).rows().push(FooBarRow { foo: None, bar: None }));
        }
    }

    fn remove(&mut self, index: usize) {
        self.foos.remove(index);
        self.bars.remove(index);
        proof {
            assert(self.rows() =~= old(self).rows().remove(index as int));
        }
    }
}

impl Component<FooBarCollection> for Foo {
    open spec fn of_row(r: FooBarRow) -> Option<Foo> {
        r.foo
    }

    open spec fn row_with(r: FooBarRow, v: Option<Foo>) -> FooBarRow {
        FooBarRow { foo: v, bar: r.bar }
    }

    proof fn lens_laws(r: FooBarRow, v: Option<Foo>) {
    }

    proof fn empty_row_law() {
    }

    fn get_slot(s: &FooBarCollection, index: usize) -> (r: &Option<Foo>) {
        &s.foos[index]
    }

    fn set_slot(s: &mut FooBarCollection, index: usize, v: Option<Foo>) {
        s.foos[index] = v;
        proof {
            assert(s.rows() =~= old(s).rows().update(
                index as int,
                Foo::row_with(old(s).rows()[index as int], v),
            ));
        }
    }
}

impl Component<FooBarCollection> for Bar {
    open spec fn of_row(r: FooBarRow) -> Option<Bar> {
        r.bar
    }

    open spec fn row_with(r: FooBarRow, v: Option<Bar>) -> FooBarRow {
        FooBarRow { foo: r.foo, bar: v }
    }

    proof fn lens_laws(r: FooBarRow, v: Option<Bar>) {
    }

    proof fn empty_row_law() {
    }

    fn get_slot(s: &FooBarCollection, index: usize) -> (r: &Option<Bar>) {
        &s.bars[index]
    }

    fn set_slot(s: &mut FooBarCollection, index: usize, v: Option<Bar>) {
        s.bars[index] = v;
        proof {
            assert(s.rows() =~= old(s).rows().update(
                index as int,
                Bar::row_with(old(s).rows()[index as int], v),
            ));
        }
    }
}

/// One row of an [`IntStrCollection`]: a slot for an integer and one for a
/// string.
pub struct IntStrRow {
    pub num: Option<i32>,
    pub text: Option<String>,
}

/// A storage shape whose component types are `i32` and `String` themselves.
pub struct IntStrCollection {
    ints: Vec<Option<i32>>,
    strs: Vec<Option<String>>,
}

impl IntStrCollection {
    /// An empty shape: both columns empty.
    pub fn new() -> (s: IntStrCollection)
        ensures
            s.inv(),
            s.rows().len() == 0,
    {
        IntStrCollection { ints: Vec::new(), strs: Vec::new() }
    }

    /// The `i32` column.
    pub closed spec fn int_column(&self) -> Seq<Option<i32>> {
        self.ints@
    }

    /// The `String` column.
    pub closed spec fn str_column(&self) -> Seq<Option<String>> {
        self.strs@
    }

    /// The alignment invariant, concretely: each column has exactly one slot
    /// per row, and a row is the pair of the slots at its index.
    pub proof fn lemma_columns_aligned(&self)
        requires
            self.inv(),
        ensures
            self.int_column().len() == self.rows().len(),
            self.str_column().len() == self.rows().len(),
            forall|i: int|
                0 <= i < self.rows().len() ==> #[trigger] self.rows()[i] == (IntStrRow {
                    num: self.int_column()[i],
                    text: self.str_column()[i],
                }),
    {
    }
}

impl ComponentCollection for IntStrCollection {
    type Row = IntStrRow;

    closed spec fn inv(&self) -> bool {
        self.ints@.len() == self.strs@.len()
    }

    closed spec fn rows(&self) -> Seq<IntStrRow> {
        Seq::new(
            self.ints@.len(),
            |i: int| IntStrRow { num: self.ints@[i], text: self.strs@[i] },
        )
    }

    open spec fn empty_row() -> IntStrRow {
        IntStrRow { num: None, text: None }
    }

    fn push_none(&mut self) {
        self.ints.push(None);
        self.strs.push(None);
        proof {
            assert(self.rows() =~= old(self).rows().push(IntStrRow { num: None, text: None }));
        }
    }

    fn remove(&mut self, index: usize) {
        self.ints.remove(index);
        self.strs.remove(index);
        proof {
            assert(self.rows() =~= old(self).rows().remove(index as int));
        }
    }
}

impl Component<IntStrCollection> for i32 {
    open spec fn of_row(r: IntStrRow) -> Option<i32> {
        r.num
    }

    open spec fn row_with(r: IntStrRow, v: Option<i32>) -> IntStrRow {
        IntStrRow { num: v, text: r.text }
    }

    proof fn lens_laws(r: IntStrRow, v: Option<i32>) {
    }

    proof fn empty_row_law() {
    }

    fn get_slot(s: &IntStrCollection, index: usize) -> (r: &Option<i32>) {
        &s.ints[index]
    }

    fn set_slot(s: &mut IntStrCollection, index: usize, v: Option<i32>) {
        s.ints[index] = v;
        proof {
            assert(s.rows() =~= old(s).rows().update(
                index as int,
                <i32 as Component<IntStrCollection>>::row_with(old(s).rows()[index as int], v),
            ));
        }
    }
}

impl Component<IntStrCollection> for String {
    open spec fn of_row(r: IntStrRow) -> Option<String> {
        r.text
    }

    open spec fn row_with(r: IntStrRow, v: Option<String>) -> IntStrRow {
        IntStrRow { num: r.num, text: v }
    }

    proof fn lens_laws(r: IntStrRow, v: Option<String>) {
    }

    proof fn empty_row_law() {
    }

    fn get_slot(s: &IntStrCollection, index: usize) -> (r: &Option<String>) {
        &s.strs[index]
    }

    fn set_slot(s: &mut IntStrCollection, index: usize, v: Option<String>) {
        s.strs[index] = v;
        proof {
            assert(s.rows() =~= old(s).rows().update(
                index as int,
                <String as Component<IntStrCollection>>::row_with(old(s).rows()[index as int], v),
            ));
        }
    }
}

} // verus!
