use vstd::prelude::*;

use crate::column::{Column, FactorData};
use crate::entry::{Entry, Stored};
use crate::query::Queryable;

verus! {

/// A typed view of a registered column, for a caller that does not name its
/// element type: dense 64-bit integers, or dictionary-encoded text.
pub enum DynamicField<'a> {
    Int64(&'a [i64]),
    String(&'a FactorData<String>),
}

/// A column registered as one element type is read back as that type only:
/// after `add_column` of `col` as `T` under `name`, the entry there is of `T`'s
/// kind and holds `col`, so `get::<T>` gives `col` back, while for every `U` of
/// another kind `is_type::<U>` is false and `get::<U>` is not permitted.
pub proof fn lemma_type_safety<T: Stored, U: Stored>(before: DataFrame, after: DataFrame, name: Seq<char>, col: Column<T>)
    requires
        after@ == before@.insert(name, T::wrapped(col)),
    ensures
        after@.contains_key(name),
        after@[name].kind() == T::kind(),
        T::unwrapped(after@[name]) == col,
        U::kind() != T::kind() ==> after@[name].kind() != U::kind(),
{
    T::lemma_wrapped(col);
}

/// The entry has a dynamic view: it holds dense 64-bit integers or
/// dictionary-encoded text.
pub open spec fn has_dynamic_view(e: Entry) -> bool {
    match e {
        Entry::Int64(Column::Vec(_)) => true,
        Entry::Text(Column::Factor(_)) => true,
        _ => false,
    }
}

/// A named entry of a registry.
struct Slot {
    name: String,
    entry: Entry,
}

/// A registry of named columns of different element types. Each column is
/// stored with its element type, and read back only as that type.
pub struct DataFrame {
    columns: Vec<Slot>,
}

impl View for DataFrame {
    type V = Map<Seq<char>, Entry>;

    /// The entry registered under each name.
    closed spec fn view(&self) -> Map<Seq<char>, Entry> {
        Map::new(
            |k: Seq<char>| exists|i: int| 0 <= i < self.columns@.len() && self.columns@[i].name@ == k,
            |k: Seq<char>|
                self.columns@[choose|i: int| 0 <= i < self.columns@.len() && self.columns@[i].name@ == k].entry,
        )
    }
}

impl DataFrame {
    /// No two slots share a name, and every column keeps its own invariant.
    pub closed spec fn wf(&self) -> bool {
        &&& forall|i: int, j: int|
            0 <= i < j < self.columns@.len() ==> self.columns@[i].name@ != self.columns@[j].name@
        &&& forall|i: int| 0 <= i < self.columns@.len() ==> (#[trigger] self.columns@[i]).entry.valid()
    }

    proof fn lemma_view(&self)
        requires
            self.wf(),
        ensures
            forall|i: int|
                0 <= i < self.columns@.len() ==> self@.contains_key(#[trigger] self.columns@[i].name@)
                    && self@[self.columns@[i].name@] == self.columns@[i].entry,
            forall|k: Seq<char>|
                self@.contains_key(k) <==> exists|i: int| 0 <= i < self.columns@.len() && self.columns@[i].name@ == k,
            forall|k: Seq<char>| #[trigger] self@.contains_key(k) ==> self@[k].valid(),
    {
        assert forall|i: int| 0 <= i < self.columns@.len() implies self@.contains_key(#[trigger] self.columns@[i].name@)
            && self@[self.columns@[i].name@] == self.columns@[i].entry by {
            let k = self.columns@[i].name@;
            assert(self@.contains_key(k));
            let j = choose|j: int| 0 <= j < self.columns@.len() && self.columns@[j].name@ == k;
            if j != i {
                assert(i < j || j < i);
            }
        }
        assert forall|k: Seq<char>| #[trigger] self@.contains_key(k) implies self@[k].valid() by {
            let j = choose|j: int| 0 <= j < self.columns@.len() && self.columns@[j].name@ == k;
            assert(self.columns@[j].entry.valid());
        }
    }

    /// Replacing the entry of slot `i`, under the same name, replaces the entry
    /// registered under that name.
    proof fn lemma_replace(a: DataFrame, b: DataFrame, i: int)
        requires
            a.wf(),
            0 <= i < a.columns@.len(),
        ensures
            b.columns@ == a.columns@.update(i, Slot { name: a.columns@[i].name, entry: b.columns@[i].entry }) ==> {
                &&& b@ == a@.insert(a.columns@[i].name@, b.columns@[i].entry)
                &&& b.columns@[i].entry.valid() ==> b.wf()
            },
    {
        if b.columns@ == a.columns@.update(i, Slot { name: a.columns@[i].name, entry: b.columns@[i].entry }) {
            Self::lemma_replace_by(a, b, i, b.columns@[i].entry);
        }
    }

    proof fn lemma_replace_by(a: DataFrame, b: DataFrame, i: int, entry: Entry)
        requires
            a.wf(),
            0 <= i < a.columns@.len(),
            b.columns@ == a.columns@.update(i, Slot { name: a.columns@[i].name, entry }),
        ensures
            b@ == a@.insert(a.columns@[i].name@, entry),
            entry.valid() ==> b.wf(),
    {
        a.lemma_view();
        let key = a.columns@[i].name@;
        assert(forall|j: int| 0 <= j < b.columns@.len() ==> #[trigger] b.columns@[j].name@ == a.columns@[j].name@);
        assert forall|j: int, l: int| 0 <= j < l < b.columns@.len() implies b.columns@[j].name@ != b.columns@[l].name@ by {
            assert(b.columns@[j].name@ == a.columns@[j].name@);
            assert(b.columns@[l].name@ == a.columns@[l].name@);
        }
        assert forall|j: int| 0 <= j < b.columns@.len() && j != i implies (#[trigger] b.columns@[j]).entry == a.columns@[j].entry by {}
        assert forall|k: Seq<char>| #[trigger] b@.contains_key(k) implies a@.insert(key, entry).contains_key(k) by {
            let j = choose|j: int| 0 <= j < b.columns@.len() && b.columns@[j].name@ == k;
            assert(a.columns@[j].name@ == k);
        }
        assert forall|k: Seq<char>| #[trigger] a@.insert(key, entry).contains_key(k) implies b@.contains_key(k) && b@[k] == a@.insert(key, entry)[k] by {
            if k != key {
                let j = choose|j: int| 0 <= j < a.columns@.len() && a.columns@[j].name@ == k;
                assert(b.columns@[j].name@ == k);
                let l = choose|l: int| 0 <= l < b.columns@.len() && b.columns@[l].name@ == k;
                if l != j {
                    assert(a.columns@[l].name@ == k);
                    assert(l < j || j < l);
                }
            } else {
                assert(b.columns@[i].name@ == k);
                let l = choose|l: int| 0 <= l < b.columns@.len() && b.columns@[l].name@ == k;
                if l != i {
                    assert(a.columns@[l].name@ == k);
                    assert(l < i || i < l);
                }
            }
        }
        assert(b@ =~= a@.insert(key, entry));
    }

    /// Where the column named `key` stands, if there is one.
    fn find(&self, key: &String) -> (r: Option<usize>)
        ensures
            r matches Some(i) ==> i < self.columns@.len() && self.columns@[i as int].name@ == key@,
            r is None ==> forall|i: int| 0 <= i < self.columns@.len() ==> self.columns@[i].name@ != key@,
    {
        let mut k: usize = 0;
        while k < self.columns.len()
            invariant
                0 <= k <= self.columns@.len(),
                forall|i: int| 0 <= i < k ==> self.columns@[i].name@ != key@,
            decreases self.columns@.len() - k,
        {
            if self.columns[k].name == *key {
                return Some(k);
            }
            k = k + 1;
        }
        None
    }

    /// An empty registry.
    pub fn new() -> (r: DataFrame)
        ensures
            r.wf(),
            r@ == Map::<Seq<char>, Entry>::empty(),
    {
        let r = DataFrame { columns: Vec::new() };
        assert(r@ =~= Map::<Seq<char>, Entry>::empty());
        r
    }

    /// Registers `col` under `name`, with its element type, in place of whatever
    /// was registered under that name before.
    pub fn add_column<T: Stored>(&mut self, name: String, col: Column<T>)
        requires
            old(self).wf(),
            col.valid(),
        ensures
            final(self).wf(),
            final(self)@ == old(self)@.insert(name@, T::wrapped(col)),
    {
        proof {
            self.lemma_view();
        }
        let entry = T::wrap(col);
        let ghost key = name@;
        let ghost pos: int;
        match self.find(&name) {
            Some(i) => {
                self.columns.set(i, Slot { name, entry });
                proof {
                    pos = i as int;
                }
            },
            None => {
                self.columns.push(Slot { name, entry });
                proof {
                    pos = self.columns@.len() - 1;
                }
            },
        }
        assert(self.columns@[pos].name@ == key && self.columns@[pos].entry == T::wrapped(col));
        proof {
            self.lemma_view();
            assert(self@ =~= old(self)@.insert(key, T::wrapped(col))) by {
                assert forall|k: Seq<char>| #[trigger] self@.contains_key(k) implies old(self)@.insert(key, T::wrapped(col)).contains_key(k) by {
                    let j = choose|j: int| 0 <= j < self.columns@.len() && self.columns@[j].name@ == k;
                    if k != key {
                        assert(old(self).columns@[j].name@ == k);
                    }
                }
                assert forall|k: Seq<char>| #[trigger] old(self)@.insert(key, T::wrapped(col)).contains_key(k) implies self@.contains_key(k) && self@[k] == old(self)@.insert(key, T::wrapped(col))[k] by {
                    if k != key {
                        let j = choose|j: int| 0 <= j < old(self).columns@.len() && old(self).columns@[j].name@ == k;
                        assert(self.columns@[j] == old(self).columns@[j]);
                    } else {
                        assert(self.columns@[pos].name@ == k);
                    }
                }
            }
        }
    }

    /// Whether a column is registered under `name`.
    pub fn contains(&self, name: &str) -> (r: bool)
        requires
            self.wf(),
        ensures
            r == self@.contains_key(name@),
    {
        proof {
            self.lemma_view();
        }
        let key = name.to_owned();
        self.find(&key).is_some()
    }

    /// The column registered under `name`, as a column of `T`; a column of that
    /// element type must be registered there (`is_type` tells).
    pub fn get<T: Stored>(&self, name: &str) -> (r: &Column<T>)
        requires
            self.wf(),
            self@.contains_key(name@),
            self@[name@].kind() == T::kind(),
        ensures
            *r == T::unwrapped(self@[name@]),
            r.valid(),
    {
        proof {
            self.lemma_view();
        }
        let key = name.to_owned();
        match self.find(&key) {
            None => vstd::pervasive::unreached(),
            Some(i) => match T::peek(&self.columns[i].entry) {
                Some(c) => c,
                None => vstd::pervasive::unreached(),
            },
        }
    }

    /// The column registered under `name`, as a column of `T`, for writing; a
    /// column of that element type must be registered there (`is_type` tells).
    /// The registry then holds what the column becomes.
    pub fn get_mut<T: Stored>(&mut self, name: &str) -> (r: &mut Column<T>)
        requires
            old(self).wf(),
            old(self)@.contains_key(name@),
            old(self)@[name@].kind() == T::kind(),
        ensures
            *r == T::unwrapped(old(self)@[name@]),
            r.valid(),
            final(self)@ == old(self)@.insert(name@, T::wrapped(*final(r))),
            final(r).valid() ==> final(self).wf(),
    {
        proof {
            self.lemma_view();
        }
        let key = name.to_owned();
        match self.find(&key) {
            None => vstd::pervasive::unreached(),
            Some(i) => {
                proof {
                    Self::lemma_replace(*old(self), *final(self), i as int);
                }
                let slot = &mut self.columns[i];
                match T::peek_mut(&mut slot.entry) {
                    Some(c) => c,
                    None => vstd::pervasive::unreached(),
                }
            },
        }
    }

    /// Whether a column is registered under `name` with element type `T`.
    pub fn is_type<T: Stored>(&self, name: &str) -> (r: bool)
        requires
            self.wf(),
        ensures
            r == (self@.contains_key(name@) && self@[name@].kind() == T::kind()),
    {
        proof {
            self.lemma_view();
        }
        let key = name.to_owned();
        match self.find(&key) {
            None => false,
            Some(i) => self.columns[i].entry.element_kind() == T::kind_of(),
        }
    }

    /// Whether the column registered under `name` has a dynamic view: it holds
    /// dense 64-bit integers or dictionary-encoded text.
    pub fn has_dynamic(&self, name: &str) -> (r: bool)
        requires
            self.wf(),
        ensures
            r == (self@.contains_key(name@) && has_dynamic_view(self@[name@])),
    {
        proof {
            self.lemma_view();
        }
        let key = name.to_owned();
        match self.find(&key) {
            None => false,
            Some(i) => match &self.columns[i].entry {
                Entry::Int64(Column::Vec(_)) => true,
                Entry::Text(Column::Factor(_)) => true,
                _ => false,
            },
        }
    }

    /// A typed view of the column registered under `name`, tagged by its element
    /// type; the column must have one (`has_dynamic` tells).
    pub fn get_dynamic(&self, name: &str) -> (r: DynamicField<'_>)
        requires
            self.wf(),
            self@.contains_key(name@),
            has_dynamic_view(self@[name@]),
        ensures
            match self@[name@] {
                Entry::Int64(Column::Vec(v)) => r matches DynamicField::Int64(s) && s@ == v@,
                Entry::Text(Column::Factor(f)) => r matches DynamicField::String(g) && *g == f,
                _ => false,
            },
    {
        proof {
            self.lemma_view();
        }
        let key = name.to_owned();
        match self.find(&key) {
            None => vstd::pervasive::unreached(),
            Some(i) => match &self.columns[i].entry {
                Entry::Int64(c) => DynamicField::Int64(c.as_ref()),
                Entry::Text(c) => DynamicField::String(c.as_factor()),
                _ => vstd::pervasive::unreached(),
            },
        }
    }
}

} // verus!
