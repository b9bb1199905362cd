use vstd::prelude::*;

use crate::entry::{Entry, Stored};

verus! {

/// A named, densely stored column of a positional frame.
pub struct Column {
    name: String,
    rows: Entry,
}

/// A frame of named columns kept in the order their names were first added and
/// addressed by position or by name; adding a column under a name already there
/// replaces that column in place. Each column is stored with its element type, and read
/// back only as that type.
pub struct DataFrame {
    columns: Vec<Column>,
}

impl DataFrame {
    /// The name of each column, by position.
    pub closed spec fn names(&self) -> Seq<Seq<char>> {
        self.columns@.map_values(|c: Column| c.name@)
    }

    /// The entry of each column, by position.
    pub closed spec fn entries(&self) -> Seq<Entry> {
        self.columns@.map_values(|c: Column| c.rows)
    }

    /// No two columns share a name, and every column is stored densely.
    pub open spec fn wf(&self) -> bool {
        &&& self.names().no_duplicates()
        &&& self.entries().len() == self.names().len()
        &&& forall|i: int| 0 <= i < self.entries().len() ==> (#[trigger] self.entries()[i]).is_dense()
    }

    /// The values of the dense column that `e` holds, as elements of `T`.
    pub open spec fn dense_rows<T: Stored>(e: Entry) -> Seq<T> {
        T::unwrapped(e)->Vec_0@
    }

    /// The position of the first column named `field` (in a well-formed frame,
    /// the only one).
    pub open spec fn position(&self, field: Seq<char>) -> int {
        choose|i: int|
            0 <= i < self.names().len() && self.names()[i] == field && forall|j: int|
                0 <= j < i ==> self.names()[j] != field
    }

    /// An empty frame.
    pub fn new() -> (r: DataFrame)
        ensures
            r.wf(),
            r.names() == Seq::<Seq<char>>::empty(),
            r.entries() == Seq::<Entry>::empty(),
    {
        let r = DataFrame { columns: Vec::new() };
        assert(r.names() =~= Seq::<Seq<char>>::empty());
        assert(r.entries() =~= Seq::<Entry>::empty());
        r
    }

    /// Registers `rows` under `name`: in place of the column of that name if
    /// there is one, else as a new last column.
    pub fn add_column<T: Stored>(&mut self, name: String, rows: Vec<T>)
        requires
            old(self).wf(),
        ensures
            final(self).wf(),
            old(self).names().contains(name@) ==> {
                &&& final(self).names() == old(self).names()
                &&& final(self).entries() == old(self).entries().update(
                    old(self).position(name@),
                    T::wrapped(crate::column::Column::Vec(rows)),
                )
            },
            !old(self).names().contains(name@) ==> {
                &&& final(self).names() == old(self).names().push(name@)
                &&& final(self).entries() == old(self).entries().push(T::wrapped(crate::column::Column::Vec(rows)))
            },
    {
        let ghost key = name@;
        let ghost col = crate::column::Column::Vec(rows);
        let rows = T::wrap(crate::column::Column::Vec(rows));
        match self.index_of(name.as_str()) {
            Some(i) => {
                proof {
                    self.lemma_first(key, i as int);
                }
                self.columns.set(i, Column { name, rows });
                assert(self.names() =~= old(self).names());
                assert(self.entries() =~= old(self).entries().update(i as int, T::wrapped(col)));
            },
            None => {
                self.columns.push(Column { name, rows });
                assert(self.names() =~= old(self).names().push(key));
                assert(self.entries() =~= old(self).entries().push(T::wrapped(col)));
                assert(self.names().no_duplicates()) by {
                    assert forall|i: int, j: int| 0 <= i < j < self.names().len() implies self.names()[i] != self.names()[j] by {
                        if j == self.names().len() - 1 {
                            assert(old(self).names()[i] == self.names()[i]);
                        } else {
                            assert(old(self).names()[i] == self.names()[i]);
                            assert(old(self).names()[j] == self.names()[j]);
                        }
                    }
                }
            },
        }
    }

    /// The values of the column at position `id`, as elements of `T`; that
    /// column must hold `T`.
    pub fn get<T: Stored>(&self, id: usize) -> (r: &[T])
        requires
            self.wf(),
            id < self.entries().len(),
            self.entries()[id as int].kind() == T::kind(),
        ensures
            r@ == Self::dense_rows::<T>(self.entries()[id as int]),
    {
        assert(self.entries()[id as int].is_dense());
        match T::peek(&self.columns[id].rows) {
            None => vstd::pervasive::unreached(),
            Some(c) => c.as_ref(),
        }
    }

    /// Replacing the entry of column `i` keeps the names and the other entries.
    proof fn lemma_replace(a: DataFrame, b: DataFrame, i: int)
        requires
            0 <= i < a.columns@.len(),
        ensures
            b.columns@ == a.columns@.update(i, Column { name: a.columns@[i].name, rows: b.columns@[i].rows }) ==> {
                &&& b.names() == a.names()
                &&& b.entries() == a.entries().update(i, b.entries()[i])
            },
    {
        if b.columns@ == a.columns@.update(i, Column { name: a.columns@[i].name, rows: b.columns@[i].rows }) {
            assert(b.names() =~= a.names());
            assert(b.entries() =~= a.entries().update(i, b.entries()[i]));
        }
    }

    /// The values of the column at position `id`, as elements of `T`, for
    /// writing; that column must hold `T`. The frame then holds what they become.
    pub fn get_mut<T: Stored>(&mut self, id: usize) -> (r: &mut [T])
        requires
            old(self).wf(),
            id < old(self).entries().len(),
            old(self).entries()[id as int].kind() == T::kind(),
        ensures
            r@ == Self::dense_rows::<T>(old(self).entries()[id as int]),
            final(self).names() == old(self).names(),
            final(self).entries().len() == old(self).entries().len(),
            forall|j: int| 0 <= j < old(self).entries().len() && j != id ==> final(self).entries()[j] == old(self).entries()[j],
            final(self).entries()[id as int].kind() == T::kind(),
            Self::dense_rows::<T>(final(self).entries()[id as int]) == final(r)@,
            final(self).wf(),
    {
        assert(self.entries()[id as int].is_dense());
        proof {
            Self::lemma_replace(*old(self), *final(self), id as int);
        }
        let column = &mut self.columns[id];
        match T::peek_mut(&mut column.rows) {
            None => vstd::pervasive::unreached(),
            Some(c) => c.as_mut(),
        }
    }

    /// The position of the first column named `field`, if there is one.
    pub fn index_of(&self, field: &str) -> (r: Option<usize>)
        ensures
            r matches Some(i) ==> i < self.names().len() && self.names()[i as int] == field@ && forall|j: int|
                0 <= j < i ==> self.names()[j] != field@,
            r is None ==> !self.names().contains(field@),
    {
        let key = field.to_owned();
        let mut k: usize = 0;
        while k < self.columns.len()
            invariant
                0 <= k <= self.columns@.len(),
                key@ == field@,
                forall|j: int| 0 <= j < k ==> self.names()[j] != field@,
            decreases self.columns@.len() - k,
        {
            if self.columns[k].name == key {
                return Some(k);
            }
            k = k + 1;
        }
        None
    }

    /// The values of the first column named `field`, as elements of `T`; there
    /// must be such a column (`index_of` tells), and it must hold `T`.
    pub fn select<T: Stored>(&self, field: &str) -> (r: &[T])
        requires
            self.wf(),
            self.names().contains(field@),
            self.entries()[self.position(field@)].kind() == T::kind(),
        ensures
            r@ == Self::dense_rows::<T>(self.entries()[self.position(field@)]),
    {
        match self.index_of(field) {
            None => vstd::pervasive::unreached(),
            Some(i) => {
                proof {
                    self.lemma_first(field@, i as int);
                }
                self.get(i)
            },
        }
    }

    /// The values of the first column named `field`, as elements of `T`, for
    /// writing; there must be such a column (`index_of` tells), and it must hold
    /// `T`. The frame then holds what they become.
    pub fn select_mut<T: Stored>(&mut self, field: &str) -> (r: &mut [T])
        requires
            old(self).wf(),
            old(self).names().contains(field@),
            old(self).entries()[old(self).position(field@)].kind() == T::kind(),
        ensures
            ({
                let i = old(self).position(field@);
                &&& r@ == Self::dense_rows::<T>(old(self).entries()[i])
                &&& final(self).names() == old(self).names()
                &&& final(self).entries().len() == old(self).entries().len()
                &&& forall|j: int|
                    0 <= j < old(self).entries().len() && j != i ==> final(self).entries()[j] == old(self).entries()[j]
                &&& final(self).entries()[i].kind() == T::kind()
                &&& Self::dense_rows::<T>(final(self).entries()[i]) == final(r)@
                &&& final(self).wf()
            }),
    {
        match self.index_of(field) {
            None => vstd::pervasive::unreached(),
            Some(i) => {
                proof {
                    self.lemma_first(field@, i as int);
                }
                self.get_mut(i)
            },
        }
    }

    /// The first position of `field` among the names is `i`.
    proof fn lemma_first(&self, field: Seq<char>, i: int)
        requires
            0 <= i < self.names().len(),
            self.names()[i] == field,
            forall|j: int| 0 <= j < i ==> self.names()[j] != field,
        ensures
            self.names().contains(field),
            self.position(field) == i,
    {
        let k = self.position(field);
        assert(self.names()[k] == field);
        if k < i {
        } else if i < k {
        }
    }
}

} // verus!
