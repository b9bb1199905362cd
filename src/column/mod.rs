use vstd::prelude::*;

pub mod factor;

pub use self::factor::FactorData;

use crate::element::Element;
use crate::query::{all_in_bounds, is_trace, values_of, write_step, Queryable};

verus! {

/// A column of values of one element type, stored either densely, one value per
/// row, or dictionary-encoded. The representation is chosen when the column is
/// made and never changes.
pub enum Column<T> {
    Vec(Vec<T>),
    Factor(FactorData<T>),
}

impl<T> From<Vec<T>> for Column<T> {
    fn from(value: Vec<T>) -> (r: Column<T>)
        ensures
            r == Column::Vec(value),
    {
        Column::Vec(value)
    }
}

impl<T> vstd::std_specs::convert::FromSpecImpl<Vec<T>> for Column<T> {
    open spec fn obeys_from_spec() -> bool {
        true
    }

    open spec fn from_spec(v: Vec<T>) -> Column<T> {
        Column::Vec(v)
    }
}

impl<T: Element> Column<T> {
    /// Creates a dictionary-encoded column from its data.
    pub fn factor(data: FactorData<T>) -> (r: Column<T>)
        ensures
            r == Column::Factor(data),
    {
        Column::Factor(data)
    }

    /// The number of rows.
    pub fn len(&self) -> (r: usize)
        ensures
            r == self.rows().len(),
    {
        match self {
            Column::Vec(v) => v.len(),
            Column::Factor(f) => f.len(),
        }
    }

    /// The values of a dense column.
    pub fn as_ref(&self) -> (r: &[T])
        requires
            self is Vec,
        ensures
            r@ == self->Vec_0@,
    {
        match self {
            Column::Vec(v) => v.as_slice(),
            Column::Factor(_) => vstd::pervasive::unreached(),
        }
    }

    /// The values of a dense column, for writing; the column then holds what
    /// they become.
    pub fn as_mut(&mut self) -> (r: &mut [T])
        requires
            *old(self) is Vec,
        ensures
            (*r)@ == old(self)->Vec_0@,
            *final(self) is Vec,
            final(self)->Vec_0@ == (*final(r))@,
    {
        match self {
            Column::Vec(v) => v.as_mut_slice(),
            Column::Factor(_) => vstd::pervasive::unreached(),
        }
    }

    /// The data of a dictionary-encoded column.
    pub fn as_factor(&self) -> (r: &FactorData<T>)
        requires
            self is Factor,
        ensures
            *r == self->Factor_0,
    {
        match self {
            Column::Vec(_) => vstd::pervasive::unreached(),
            Column::Factor(f) => f,
        }
    }

    /// The value at row `index`, or `None` past the last row.
    pub fn get(&self, index: usize) -> (r: Option<&T>)
        requires
            self.valid(),
        ensures
            r is Some <==> index < self.rows().len(),
            r matches Some(x) ==> x@ == self.rows()[index as int],
    {
        if index < self.len() {
            Some(self.at(index))
        } else {
            None
        }
    }

    /// The value at row `index`, which must be a row of the column.
    pub fn at(&self, index: usize) -> (r: &T)
        requires
            self.valid(),
            index < self.rows().len(),
        ensures
            r@ == self.rows()[index as int],
    {
        let picked = self.select(&[index]);
        picked[0]
    }

    /// Writes `value` over row `index`. A dictionary-encoded column takes only a
    /// value already in its palette; its palette, and so every other row's code,
    /// is left as it was.
    pub fn set(&mut self, index: usize, value: T)
        requires
            old(self).valid(),
            index < old(self).rows().len(),
            old(self).admitted().contains(value@),
        ensures
            final(self).valid(),
            old(self).keeps(&*final(self)),
            (*final(self) is Vec) == (*old(self) is Vec),
            *old(self) is Factor ==> final(self)->Factor_0.palette() == old(self)->Factor_0.palette(),
            final(self).admitted() == old(self).admitted(),
            final(self).rows() == old(self).rows().update(index as int, value@),
    {
        let write = |_i: usize, _old: &T| -> (w: T)
            ensures
                w@ == value@,
            { value.duplicate() };
        let indices = [index];
        proof {
            assert(all_in_bounds(indices@, self.rows().len()));
        }
        self.apply(&indices, write);
        proof {
            let admitted = old(self).admitted();
            let start = old(self).rows();
            let states = choose|states: Seq<Seq<T::V>>|
                #[trigger] is_trace(admitted, write, indices@, states) && states[0] == start
                    && states.last() == final(self).rows();
            assert(is_trace(admitted, write, indices@, states));
            assert(write_step(admitted, write, states[0], indices@[0], states[0int + 1]));
        }
    }
}

/// Writing a value and reading it back gives that value. What `set` of `v` at
/// row `i` leaves (a valid column of the same shape, with row `i` replaced by
/// `v`) holds `v` at row `i` and every other row as it was; a dictionary-encoded
/// column keeps its palette, stores at row `i` the code of `v` in it, and keeps
/// every other row's code.
pub proof fn lemma_round_trip<T: Element>(before: Column<T>, after: Column<T>, i: int, v: T::V)
    requires
        before.valid(),
        after.valid(),
        0 <= i < before.rows().len(),
        before.admitted().contains(v),
        before.keeps(&after),
        after.rows() == before.rows().update(i, v),
    ensures
        after.rows().len() == before.rows().len(),
        after.rows()[i] == v,
        forall|j: int| 0 <= j < before.rows().len() && j != i ==> after.rows()[j] == before.rows()[j],
        (after is Vec) == (before is Vec),
        before is Factor ==> {
            let (d, e) = (before->Factor_0, after->Factor_0);
            &&& e.palette() == d.palette()
            &&& e.palette()[e.codes()[i] as int] == v
            &&& forall|j: int| 0 <= j < d.codes().len() && j != i ==> e.codes()[j] == d.codes()[j]
        },
{
    if before is Factor {
        let (d, e) = (before->Factor_0, after->Factor_0);
        assert(e.codes().len() == d.codes().len()) by {
            assert(e.values().len() == d.values().len());
        }
        assert(e.values()[i] == v);
        assert forall|j: int| 0 <= j < d.codes().len() && j != i implies e.codes()[j] == d.codes()[j] by {
            assert(e.values()[j] == d.values()[j]);
            let ce = e.codes()[j] as int;
            let cd = d.codes()[j] as int;
            assert(ce < e.palette().len() && cd < d.palette().len());
            assert(e.palette()[ce] == d.palette()[cd]);
        }
    }
}

/// A dense column admits every value.
pub proof fn lemma_dense_admits_all<T: Element>(col: Column<T>, v: T::V)
    requires
        col is Vec,
    ensures
        col.admitted().contains(v),
{
}

impl<T: Element> Queryable for Column<T> {
    type Item = T;

    open spec fn rows(&self) -> Seq<T::V> {
        match self {
            Column::Vec(v) => values_of(v@),
            Column::Factor(f) => f.values(),
        }
    }

    open spec fn valid(&self) -> bool {
        match self {
            Column::Vec(_) => true,
            Column::Factor(f) => f.wf(),
        }
    }

    open spec fn admitted(&self) -> Set<T::V> {
        match self {
            Column::Vec(v) => v.admitted(),
            Column::Factor(f) => f.admitted(),
        }
    }

    open spec fn keeps(&self, other: &Column<T>) -> bool {
        match (self, other) {
            (Column::Vec(a), Column::Vec(b)) => a.keeps(b),
            (Column::Factor(a), Column::Factor(b)) => a.keeps(b),
            _ => false,
        }
    }

    fn select<'a>(&'a self, indices: &[usize]) -> (r: Vec<&'a T>) {
        match self {
            Column::Vec(v) => v.select(indices),
            Column::Factor(f) => f.select(indices),
        }
    }

    fn apply<F: Fn(usize, &T) -> T>(&mut self, indices: &[usize], f: F) {
        match self {
            Column::Vec(v) => v.apply(indices, f),
            Column::Factor(d) => d.apply(indices, f),
        }
    }
}

} // verus!
