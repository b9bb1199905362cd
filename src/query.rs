use vstd::prelude::*;

use crate::element::Element;

verus! {

/// Every index of `indices` is a row of a sequence of length `len`.
pub open spec fn all_in_bounds(indices: Seq<usize>, len: nat) -> bool {
    forall|k: int| 0 <= k < indices.len() ==> (#[trigger] indices[k] as int) < len
}

/// One write of `apply`: the transform `f`, called on row `i` of `before`,
/// returned a value in `admitted`, and `after` is `before` with row `i` replaced
/// by it.
pub open spec fn write_step<T: View, F: Fn(usize, &T) -> T>(
    admitted: Set<T::V>,
    f: F,
    before: Seq<T::V>,
    i: usize,
    after: Seq<T::V>,
) -> bool {
    exists|x: T, y: T|
        {
            &&& x@ == before[i as int]
            &&& #[trigger] call_ensures(f, (i, &x), y)
            &&& admitted.contains(y@)
            &&& after == before.update(i as int, y@)
        }
}

/// `states` records the rows before and after each write when the rows of
/// `indices` are rewritten by `f` one after another, in the order given: write
/// `k` reads `states[k]`, the rows as the earlier writes left them.
pub open spec fn is_trace<T: View, F: Fn(usize, &T) -> T>(
    admitted: Set<T::V>,
    f: F,
    indices: Seq<usize>,
    states: Seq<Seq<T::V>>,
) -> bool {
    &&& states.len() == indices.len() + 1
    &&& forall|k: int|
        0 <= k < indices.len() ==> #[trigger] write_step(admitted, f, states[k], indices[k], states[k + 1])
}

/// `end` is what `start` becomes when the rows of `indices` are rewritten by `f`
/// one after another, in the order given, each write reading the rows as the
/// earlier writes left them.
pub open spec fn applied<T: View, F: Fn(usize, &T) -> T>(
    admitted: Set<T::V>,
    f: F,
    start: Seq<T::V>,
    indices: Seq<usize>,
    end: Seq<T::V>,
) -> bool {
    exists|states: Seq<Seq<T::V>>|
        {
            &&& #[trigger] is_trace(admitted, f, indices, states)
            &&& states[0] == start
            &&& states.last() == end
        }
}

/// `apply` works through its indices in the order given: rewriting the rows of
/// `a + b` is rewriting those of `a`, then those of `b` starting from the rows as
/// the first part left them, so that a write in `b` reads what the writes in `a`
/// put there.
pub proof fn lemma_apply_in_order<T: View, F: Fn(usize, &T) -> T>(
    admitted: Set<T::V>,
    f: F,
    start: Seq<T::V>,
    a: Seq<usize>,
    b: Seq<usize>,
    end: Seq<T::V>,
)
    requires
        applied(admitted, f, start, a + b, end),
    ensures
        exists|mid: Seq<T::V>| applied(admitted, f, start, a, mid) && applied(admitted, f, mid, b, end),
{
    let states = choose|states: Seq<Seq<T::V>>|
        #[trigger] is_trace(admitted, f, a + b, states) && states[0] == start && states.last() == end;
    let n = a.len() as int;
    let first = states.take(n + 1);
    let second = states.skip(n);
    assert forall|k: int| 0 <= k < a.len() implies #[trigger] write_step(admitted, f, first[k], a[k], first[k + 1]) by {
        assert((a + b)[k] == a[k]);
        assert(write_step(admitted, f, states[k], (a + b)[k], states[k + 1]));
    }
    assert(is_trace(admitted, f, a, first));
    assert forall|k: int| 0 <= k < b.len() implies #[trigger] write_step(admitted, f, second[k], b[k], second[k + 1]) by {
        assert((a + b)[n + k] == b[k]);
        assert(write_step(admitted, f, states[n + k], (a + b)[n + k], states[n + k + 1]));
    }
    assert(is_trace(admitted, f, b, second));
    assert(applied(admitted, f, start, a, states[n]));
    assert(applied(admitted, f, states[n], b, end));
}

/// Rewriting a single row is one write.
pub proof fn lemma_apply_one<T: View, F: Fn(usize, &T) -> T>(
    admitted: Set<T::V>,
    f: F,
    start: Seq<T::V>,
    i: usize,
    end: Seq<T::V>,
)
    ensures
        applied(admitted, f, start, seq![i], end) <==> write_step(admitted, f, start, i, end),
{
    if applied(admitted, f, start, seq![i], end) {
        let states = choose|states: Seq<Seq<T::V>>|
            #[trigger] is_trace(admitted, f, seq![i], states) && states[0] == start && states.last() == end;
        assert(write_step(admitted, f, states[0], seq![i][0], states[0int + 1]));
    }
    if write_step(admitted, f, start, i, end) {
        let states = seq![start, end];
        assert(is_trace(admitted, f, seq![i], states));
    }
}

/// Row-indexed access to a sequence of values.
pub trait Queryable: Sized {
    type Item: Element;

    /// The values of the rows, in order.
    spec fn rows(&self) -> Seq<<Self::Item as View>::V>;

    /// The storage's own invariant, which every operation keeps.
    spec fn valid(&self) -> bool;

    /// The values that may be written over a row.
    spec fn admitted(&self) -> Set<<Self::Item as View>::V>;

    /// `other` has the same shape as `self`: whatever besides the row values
    /// the storage holds (a dictionary's palette, the representation in use) is
    /// unchanged in it.
    spec fn keeps(&self, other: &Self) -> bool;

    /// The values at `indices`, in the order given; an index may repeat.
    fn select<'a>(&'a self, indices: &[usize]) -> (r: Vec<&'a Self::Item>)
        requires
            self.valid(),
            all_in_bounds(indices@, self.rows().len()),
        ensures
            r@.len() == indices@.len(),
            forall|k: int| 0 <= k < indices@.len() ==> (#[trigger] r@[k])@ == self.rows()[indices@[k] as int],
    ;

    /// Rewrites the rows at `indices` one after another, in the order given: each
    /// row gets what `f` returns for its index and its current value. On a value
    /// that the storage admits, `f` must be callable and return a value that the
    /// storage admits.
    fn apply<F: Fn(usize, &Self::Item) -> Self::Item>(&mut self, indices: &[usize], f: F)
        requires
            old(self).valid(),
            all_in_bounds(indices@, old(self).rows().len()),
            forall|i: usize, x: &Self::Item|
                old(self).admitted().contains(x@) ==> #[trigger] call_requires(f, (i, x)),
            forall|i: usize, x: &Self::Item, y: Self::Item|
                old(self).admitted().contains(x@) && #[trigger] call_ensures(f, (i, x), y)
                    ==> old(self).admitted().contains(y@),
        ensures
            final(self).valid(),
            old(self).keeps(&*final(self)),
            final(self).rows().len() == old(self).rows().len(),
            final(self).admitted() == old(self).admitted(),
            applied(old(self).admitted(), f, old(self).rows(), indices@, final(self).rows()),
    ;

    /// Appends a copy of each value at `indices` to `out`, in the order given.
    fn clone_to(&self, indices: &[usize], out: &mut Vec<Self::Item>)
        requires
            self.valid(),
            all_in_bounds(indices@, self.rows().len()),
        ensures
            final(out)@.len() == old(out)@.len() + indices@.len(),
            forall|k: int| 0 <= k < old(out)@.len() ==> final(out)@[k] == old(out)@[k],
            forall|k: int|
                0 <= k < indices@.len() ==> (#[trigger] final(out)@[old(out)@.len() + k])@ == self.rows()[indices@[k] as int],
    {
        let picked = self.select(indices);
        out.reserve(picked.len());
        let ghost start = out@;
        let mut k: usize = 0;
        while k < picked.len()
            invariant
                picked@.len() == indices@.len(),
                forall|j: int| 0 <= j < indices@.len() ==> (#[trigger] picked@[j])@ == self.rows()[indices@[j] as int],
                0 <= k <= picked@.len(),
                out@.len() == start.len() + k,
                forall|j: int| 0 <= j < start.len() ==> out@[j] == start[j],
                forall|j: int| 0 <= j < k ==> (#[trigger] out@[start.len() + j])@ == self.rows()[indices@[j] as int],
            decreases picked@.len() - k,
        {
            let value = picked[k].duplicate();
            out.push(value);
            k = k + 1;
        }
    }

    /// A new vector holding a copy of each value at `indices`, in the order given.
    fn to_vec(&self, indices: &[usize]) -> (r: Vec<Self::Item>)
        requires
            self.valid(),
            all_in_bounds(indices@, self.rows().len()),
        ensures
            r@.len() == indices@.len(),
            forall|k: int| 0 <= k < indices@.len() ==> (#[trigger] r@[k])@ == self.rows()[indices@[k] as int],
    {
        let mut out = Vec::new();
        self.clone_to(indices, &mut out);
        proof {
            assert forall|k: int| 0 <= k < indices@.len() implies (#[trigger] out@[k])@ == self.rows()[indices@[k] as int] by {
                assert(out@[0 + k] == out@[k]);
            }
        }
        out
    }
}

/// The rows of a vector, by value.
pub open spec fn values_of<T: View>(v: Seq<T>) -> Seq<T::V> {
    v.map_values(|t: T| t@)
}

impl<T: Element> Queryable for Vec<T> {
    type Item = T;

    open spec fn rows(&self) -> Seq<T::V> {
        values_of(self@)
    }

    open spec fn valid(&self) -> bool {
        true
    }

    open spec fn admitted(&self) -> Set<T::V> {
        Set::full()
    }

    open spec fn keeps(&self, other: &Vec<T>) -> bool {
        true
    }

    fn select<'a>(&'a self, indices: &[usize]) -> (r: Vec<&'a T>) {
        let mut out: Vec<&'a T> = Vec::new();
        let mut k: usize = 0;
        while k < indices.len()
            invariant
                all_in_bounds(indices@, self.rows().len()),
                0 <= k <= indices@.len(),
                out@.len() == k,
                forall|j: int| 0 <= j < k ==> (#[trigger] out@[j])@ == self.rows()[indices@[j] as int],
            decreases indices@.len() - k,
        {
            let i = indices[k];
            assert(indices@[k as int] == i);
            out.push(&self[i]);
            k = k + 1;
        }
        out
    }

    fn apply<F: Fn(usize, &T) -> T>(&mut self, indices: &[usize], f: F) {
        let ghost start = self.rows();
        let ghost mut states: Seq<Seq<T::V>> = seq![start];
        let mut k: usize = 0;
        while k < indices.len()
            invariant
                all_in_bounds(indices@, start.len()),
                forall|i: usize, x: &T| call_requires(f, (i, x)),
                0 <= k <= indices@.len(),
                self.rows().len() == start.len(),
                is_trace(Set::<T::V>::full(), f, indices@.take(k as int), states),
                states[0] == start,
                states.last() == self.rows(),
            decreases indices@.len() - k,
        {
            let i = indices[k];
            assert(indices@[k as int] == i);
            let ghost before = self.rows();
            let value = f(i, &self[i]);
            self.set(i, value);
            proof {
                assert(self.rows() =~= before.update(i as int, value@));
                assert(write_step(Set::<T::V>::full(), f, before, i, self.rows()));
                let old_states = states;
                states = states.push(self.rows());
                assert forall|j: int| 0 <= j < k + 1 implies #[trigger] write_step(
                    Set::<T::V>::full(),
                    f,
                    states[j],
                    indices@.take(k + 1)[j],
                    states[j + 1],
                ) by {
                    if j < k {
                        assert(write_step(Set::<T::V>::full(), f, old_states[j], indices@.take(k as int)[j], old_states[j + 1]));
                    }
                }
            }
            k = k + 1;
        }
        assert(indices@.take(indices@.len() as int) =~= indices@);
    }
}

} // verus!
