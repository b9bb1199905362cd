use vstd::prelude::*;

use crate::element::Element;
use crate::query::{all_in_bounds, is_trace, write_step, Queryable};

verus! {

/// The distinct values of `s`, each at the place where it first occurs.
pub open spec fn first_seen<V>(s: Seq<V>) -> Seq<V>
    decreases s.len(),
{
    if s.len() == 0 {
        Seq::empty()
    } else {
        let before = first_seen(s.drop_last());
        if before.contains(s.last()) {
            before
        } else {
            before.push(s.last())
        }
    }
}

/// The views of a sequence of string slices.
pub open spec fn strs_of(s: Seq<&str>) -> Seq<Seq<char>> {
    s.map_values(|x: &str| x@)
}

/// A sequence without repeated values is its own list of first occurrences.
pub proof fn lemma_first_seen_of_distinct<V>(s: Seq<V>)
    requires
        s.no_duplicates(),
    ensures
        first_seen(s) == s,
    decreases s.len(),
{
    if s.len() > 0 {
        let d = s.drop_last();
        assert(d.no_duplicates());
        lemma_first_seen_of_distinct(d);
        assert(!d.contains(s.last())) by {
            if d.contains(s.last()) {
                let j = choose|j: int| 0 <= j < d.len() && d[j] == s.last();
                assert(s[j] == s[s.len() - 1]);
            }
        }
        assert(d.push(s.last()) =~= s);
    }
}

/// A sequence of values stored as codes into a palette of distinct values.
pub struct FactorData<T> {
    rows: Vec<usize>,
    factors: Vec<T>,
}

impl<T: View> FactorData<T> {
    /// The palette code of each row.
    pub closed spec fn codes(&self) -> Seq<usize> {
        self.rows@
    }

    /// The distinct values, in the order they were first added.
    pub closed spec fn palette(&self) -> Seq<T::V> {
        self.factors@.map_values(|t: T| t@)
    }

    /// Every code names a palette entry, and no value appears twice in the palette.
    pub open spec fn wf(&self) -> bool {
        &&& forall|k: int| 0 <= k < self.codes().len() ==> (#[trigger] self.codes()[k] as int) < self.palette().len()
        &&& self.palette().no_duplicates()
    }

    /// The value of each row.
    pub open spec fn values(&self) -> Seq<T::V> {
        Seq::new(self.codes().len(), |k: int| self.palette()[self.codes()[k] as int])
    }

    /// The number of rows.
    pub fn len(&self) -> (r: usize)
        ensures
            r == self.codes().len(),
    {
        self.rows.len()
    }

    /// The palette code of each row.
    pub fn indices(&self) -> (r: &[usize])
        ensures
            r@ == self.codes(),
    {
        self.rows.as_slice()
    }

    /// The palette, in the order its values were first added.
    pub fn factors(&self) -> (r: &[T])
        ensures
            r@.map_values(|t: T| t@) == self.palette(),
    {
        self.factors.as_slice()
    }
}

impl<T: Element> FactorData<T> {
    /// Where `value` stands in the palette, if it is there.
    pub fn position(&self, value: &T) -> (r: Option<usize>)
        ensures
            r matches Some(p) ==> p < self.palette().len() && self.palette()[p as int] == value@
                && forall|q: int| 0 <= q < p ==> self.palette()[q] != value@,
            r is None ==> !self.palette().contains(value@),
    {
        let mut k: usize = 0;
        while k < self.factors.len()
            invariant
                0 <= k <= self.factors@.len(),
                self.palette().len() == self.factors@.len(),
                forall|j: int| 0 <= j < k ==> self.palette()[j] != value@,
            decreases self.factors@.len() - k,
        {
            if self.factors[k].same(value) {
                return Some(k);
            }
            k = k + 1;
        }
        None
    }

    /// Appends a row holding `value`. The value gets the code it already has in the
    /// palette, or joins the palette at its end with the next code.
    pub fn push(&mut self, value: T)
        requires
            old(self).wf(),
            old(self).palette().len() < usize::MAX,
        ensures
            final(self).wf(),
            final(self).palette() == if old(self).palette().contains(value@) {
                old(self).palette()
            } else {
                old(self).palette().push(value@)
            },
            final(self).codes().len() == old(self).codes().len() + 1,
            final(self).codes().drop_last() == old(self).codes(),
            final(self).palette()[final(self).codes().last() as int] == value@,
    {
        match self.position(&value) {
            Some(p) => {
                self.rows.push(p);
                assert(self.palette() =~= old(self).palette());
            },
            None => {
                let p = self.factors.len();
                let ghost v = value@;
                self.rows.push(p);
                self.factors.push(value);
                assert(self.palette() =~= old(self).palette().push(v));
            },
        }
        assert(self.codes().drop_last() =~= old(self).codes());
    }
}

/// Equal values share one code: two rows of well-formed data that hold equal
/// values hold the same palette code.
pub proof fn lemma_equal_values_share_code<T: View>(data: FactorData<T>, i: int, j: int)
    requires
        data.wf(),
        0 <= i < data.codes().len(),
        0 <= j < data.codes().len(),
        data.values()[i] == data.values()[j],
    ensures
        data.codes()[i] == data.codes()[j],
{
    let ci = data.codes()[i] as int;
    let cj = data.codes()[j] as int;
    assert(ci < data.palette().len());
    assert(cj < data.palette().len());
    assert(data.palette()[ci] == data.palette()[cj]);
}

/// The codes of well-formed data follow from its palette and its row values:
/// two such data with the same palette and the same values have the same codes.
pub proof fn lemma_codes_determined<T: View>(a: FactorData<T>, b: FactorData<T>)
    requires
        a.wf(),
        b.wf(),
        a.palette() == b.palette(),
        a.values() == b.values(),
    ensures
        a.codes() == b.codes(),
{
    assert(a.codes().len() == a.values().len() && b.codes().len() == b.values().len());
    assert forall|k: int| 0 <= k < a.codes().len() implies a.codes()[k] == b.codes()[k] by {
        assert(a.values()[k] == b.values()[k]);
        assert(a.values()[k] == a.palette()[a.codes()[k] as int]);
        assert(b.values()[k] == b.palette()[b.codes()[k] as int]);
        let ca = a.codes()[k] as int;
        let cb = b.codes()[k] as int;
        assert(ca < a.palette().len() && cb < a.palette().len());
        assert(a.palette()[ca] == a.palette()[cb]);
    }
    assert(a.codes() =~= b.codes());
}

impl<T: Element> Queryable for FactorData<T> {
    type Item = T;

    open spec fn rows(&self) -> Seq<T::V> {
        self.values()
    }

    open spec fn valid(&self) -> bool {
        self.wf()
    }

    open spec fn admitted(&self) -> Set<T::V> {
        self.palette().to_set()
    }

    open spec fn keeps(&self, other: &FactorData<T>) -> bool {
        other.palette() == self.palette()
    }

    fn select<'a>(&'a self, indices: &[usize]) -> (r: Vec<&'a T>) {
        let mut out: Vec<&'a T> = Vec::new();
        let mut k: usize = 0;
        while k < indices.len()
            invariant
                self.wf(),
                all_in_bounds(indices@, self.rows().len()),
                0 <= k <= indices@.len(),
                out@.len() == k,
                forall|j: int| 0 <= j < k ==> (#[trigger] out@[j])@ == self.rows()[indices@[j] as int],
            decreases indices@.len() - k,
        {
            let i = indices[k];
            assert(indices@[k as int] == i);
            let code = self.rows[i];
            assert(self.codes()[i as int] == code);
            out.push(&self.factors[code]);
            k = k + 1;
        }
        out
    }

    fn apply<F: Fn(usize, &T) -> T>(&mut self, indices: &[usize], f: F) {
        let ghost start = self.rows();
        let ghost admitted = self.palette().to_set();
        let ghost mut states: Seq<Seq<T::V>> = seq![start];
        let mut k: usize = 0;
        while k < indices.len()
            invariant
                self.wf(),
                self.palette() == old(self).palette(),
                admitted == self.palette().to_set(),
                start == old(self).rows(),
                all_in_bounds(indices@, start.len()),
                forall|i: usize, x: &T| admitted.contains(x@) ==> #[trigger] call_requires(f, (i, x)),
                forall|i: usize, x: &T, y: T|
                    admitted.contains(x@) && #[trigger] call_ensures(f, (i, x), y) ==> admitted.contains(y@),
                0 <= k <= indices@.len(),
                self.rows().len() == start.len(),
                is_trace(admitted, f, indices@.take(k as int), states),
                states[0] == start,
                states.last() == self.rows(),
            decreases indices@.len() - k,
        {
            let i = indices[k];
            assert(indices@[k as int] == i);
            let ghost before = self.rows();
            let code = self.rows[i];
            assert(self.codes()[i as int] == code);
            proof {
                assert(self.palette()[code as int] == self.factors@[code as int]@);
                assert(admitted.contains(self.factors@[code as int]@));
            }
            let value = f(i, &self.factors[code]);
            let p = match self.position(&value) {
                Some(p) => p,
                None => {
                    proof {
                        assert(admitted.contains(value@));
                    }
                    vstd::pervasive::unreached()
                },
            };
            self.rows.set(i, p);
            proof {
                assert(self.rows() =~= before.update(i as int, value@));
                assert(write_step(admitted, f, before, i, self.rows()));
                let old_states = states;
                states = states.push(self.rows());
                assert forall|j: int| 0 <= j < k + 1 implies #[trigger] write_step(
                    admitted,
                    f,
                    states[j],
                    indices@.take(k + 1)[j],
                    states[j + 1],
                ) by {
                    if j < k {
                        assert(write_step(admitted, f, old_states[j], indices@.take(k as int)[j], old_states[j + 1]));
                    }
                }
            }
            k = k + 1;
        }
        assert(indices@.take(indices@.len() as int) =~= indices@);
    }
}

impl FactorData<String> {
    /// Builds the data of `values` over the palette `factors`: each value gets the
    /// code it has in the palette, and a value that is not yet there joins the
    /// palette at its end.
    pub fn new(factors: Vec<String>, values: &[&str]) -> (r: FactorData<String>)
        requires
            factors@.map_values(|t: String| t@).no_duplicates(),
            factors@.len() + values@.len() < usize::MAX,
        ensures
            r.wf(),
            r.palette() == first_seen(factors@.map_values(|t: String| t@) + strs_of(values@)),
            r.values() == strs_of(values@),
    {
        let ghost init = factors@.map_values(|t: String| t@);
        let mut data = FactorData { rows: Vec::new(), factors };
        proof {
            assert(data.palette() =~= init);
            lemma_first_seen_of_distinct(init);
            assert(init + strs_of(values@).take(0) =~= init);
        }
        let mut k: usize = 0;
        while k < values.len()
            invariant
                0 <= k <= values@.len(),
                init.len() + values@.len() < usize::MAX,
                data.wf(),
                data.palette() == first_seen(init + strs_of(values@).take(k as int)),
                data.palette().len() <= init.len() + k,
                data.values() =~= strs_of(values@).take(k as int),
            decreases values@.len() - k,
        {
            let ghost before = data;
            data.add_row(values[k]);
            proof {
                let s = init + strs_of(values@).take(k + 1);
                assert(s.drop_last() =~= init + strs_of(values@).take(k as int));
                assert(s.last() == values@[k as int]@);
                assert(strs_of(values@).take(k + 1) =~= strs_of(values@).take(k as int).push(values@[k as int]@));
            }
            k = k + 1;
        }
        assert(strs_of(values@).take(values@.len() as int) =~= strs_of(values@));
        data
    }

    /// Builds the data of `values` from an empty palette.
    pub fn from_strs(values: &[&str]) -> (r: FactorData<String>)
        requires
            values@.len() < usize::MAX,
        ensures
            r.wf(),
            r.palette() == first_seen(strs_of(values@)),
            r.values() == strs_of(values@),
    {
        let empty: Vec<String> = Vec::new();
        assert(empty@.map_values(|t: String| t@).no_duplicates());
        assert(empty@.map_values(|t: String| t@) + strs_of(values@) =~= strs_of(values@));
        FactorData::new(empty, values)
    }

    /// Appends a row holding `value`, adding the value to the palette if it is not
    /// there yet.
    pub fn add_row(&mut self, value: &str)
        requires
            old(self).wf(),
            old(self).palette().len() < usize::MAX,
        ensures
            final(self).wf(),
            final(self).palette() == if old(self).palette().contains(value@) {
                old(self).palette()
            } else {
                old(self).palette().push(value@)
            },
            final(self).codes().drop_last() == old(self).codes(),
            final(self).values() == old(self).values().push(value@),
    {
        self.push(value.to_owned());
        assert(self.values() =~= old(self).values().push(value@)) by {
            assert forall|j: int| 0 <= j < old(self).codes().len() implies self.codes()[j] == old(self).codes()[j] by {
                assert(self.codes()[j] == self.codes().drop_last()[j]);
            }
        }
    }
}

} // verus!
