use vstd::prelude::*;

use crate::error::Error;
use crate::matrix::Matrix;
use crate::rational::{fits, radd, rmul, rzero, Rational};
use crate::vector::Vector;

verus! {

// ---------------------------------------------------------------------------
// Model of consumption: folds over the stored triples in insertion order.
// A model entry is (row, column, value pair).
// ---------------------------------------------------------------------------

/// The exact sum that the triples of `s`, taken in insertion order, add into
/// the cell `(i, j)`; duplicates fold by summation.
pub open spec fn cell_sum(s: Seq<(int, int, (int, int))>, i: int, j: int) -> (int, int)
    decreases s.len(),
{
    if s.len() == 0 {
        rzero()
    } else {
        let prev = cell_sum(s.drop_last(), i, j);
        if s.last().0 == i && s.last().1 == j {
            radd(prev, s.last().2)
        } else {
            prev
        }
    }
}

/// Every partial sum folded into cell `(i, j)` stays representable.
pub open spec fn cell_sum_fits(s: Seq<(int, int, (int, int))>, i: int, j: int) -> bool
    decreases s.len(),
{
    if s.len() == 0 {
        true
    } else {
        let prev = cell_sum(s.drop_last(), i, j);
        cell_sum_fits(s.drop_last(), i, j) && (s.last().0 == i && s.last().1 == j ==> fits(
            radd(prev, s.last().2),
        ))
    }
}

/// Every cell of an `m` by `n` window can be materialized exactly.
pub open spec fn window_fits(s: Seq<(int, int, (int, int))>, m: int, n: int) -> bool {
    forall|i: int, j: int| 0 <= i < m && 0 <= j < n ==> cell_sum_fits(s, i, j)
}

/// If the whole fold into a cell fits, so does the fold of every prefix.
pub proof fn lemma_cell_sum_fits_prefix(s: Seq<(int, int, (int, int))>, k: int, i: int, j: int)
    requires
        cell_sum_fits(s, i, j),
        0 <= k <= s.len(),
    ensures
        cell_sum_fits(s.take(k), i, j),
    decreases s.len(),
{
    if k == s.len() {
        assert(s.take(k) =~= s);
    } else {
        assert(s.take(k) =~= s.drop_last().take(k));
        lemma_cell_sum_fits_prefix(s.drop_last(), k, i, j);
    }
}

/// The component `k` of the product of the stored triples with the vector
/// `u`, folded in insertion order. Each triple `(i, j, a)` contributes
/// `a * u[j]` to component `i`; with `tri` set, an off-diagonal triple also
/// contributes `a * u[i]` to component `j`, mirroring triangular storage.
pub open spec fn mv_row(
    s: Seq<(int, int, (int, int))>,
    u: Seq<(int, int)>,
    tri: bool,
    k: int,
) -> (int, int)
    decreases s.len(),
{
    if s.len() == 0 {
        rzero()
    } else {
        let prev = mv_row(s.drop_last(), u, tri, k);
        let e = s.last();
        let direct = if e.0 == k {
            radd(prev, rmul(e.2, u[e.1]))
        } else {
            prev
        };
        if tri && e.0 != e.1 && e.1 == k {
            radd(direct, rmul(e.2, u[e.0]))
        } else {
            direct
        }
    }
}

/// Every term and partial sum of the product stays representable.
pub open spec fn mv_fits(s: Seq<(int, int, (int, int))>, u: Seq<(int, int)>, tri: bool) -> bool
    decreases s.len(),
{
    if s.len() == 0 {
        true
    } else {
        let s0 = s.drop_last();
        let e = s.last();
        &&& mv_fits(s0, u, tri)
        &&& fits(rmul(e.2, u[e.1]))
        &&& fits(radd(mv_row(s0, u, tri, e.0), rmul(e.2, u[e.1])))
        &&& (tri && e.0 != e.1 ==> fits(rmul(e.2, u[e.0])) && fits(
            radd(mv_row(s0, u, tri, e.1), rmul(e.2, u[e.0])),
        ))
    }
}

/// If the whole product fits, so does the product over every prefix.
pub proof fn lemma_mv_fits_prefix(
    s: Seq<(int, int, (int, int))>,
    u: Seq<(int, int)>,
    tri: bool,
    k: int,
)
    requires
        mv_fits(s, u, tri),
        0 <= k <= s.len(),
    ensures
        mv_fits(s.take(k), u, tri),
    decreases s.len(),
{
    if k == s.len() {
        assert(s.take(k) =~= s);
    } else {
        assert(s.take(k) =~= s.drop_last().take(k));
        lemma_mv_fits_prefix(s.drop_last(), u, tri, k);
    }
}

// ---------------------------------------------------------------------------
// The store
// ---------------------------------------------------------------------------

/// A coordinate-list accumulator for a sparse matrix: triples `(i, j, x)`
/// appended one at a time, in insertion order, into three parallel arrays.
///
/// Triples with identical `(i, j)` are deliberately kept separate — they are
/// summed only at consumption time (materialization or multiplication), so
/// independent contributions can be appended without a lookup. The
/// `symmetric` flag records that only one side of the diagonal was supplied;
/// it is a statement about how the data was stored, which consumers may
/// honor by passing the `triangular` mode to [`SparseTriplet::mat_vec_mul`].
pub struct SparseTriplet {
    pub nrow: usize,
    pub ncol: usize,
    pub capacity: usize,
    pub symmetric: bool,
    pub rows: Vec<usize>,
    pub cols: Vec<usize>,
    pub vals: Vec<Rational>,
}

impl SparseTriplet {
    /// Structural invariant: positive bounds, parallel arrays of one common
    /// length at most `capacity`, indices inside the declared bounds, and
    /// well-formed values.
    pub open spec fn wf(self) -> bool {
        &&& self.nrow > 0
        &&& self.ncol > 0
        &&& self.capacity > 0
        &&& self.rows@.len() == self.vals@.len()
        &&& self.cols@.len() == self.vals@.len()
        &&& self.vals@.len() <= self.capacity
        &&& forall|k: int| 0 <= k < self.vals@.len() ==> (#[trigger] self.rows@[k]) < self.nrow
        &&& forall|k: int| 0 <= k < self.vals@.len() ==> (#[trigger] self.cols@[k]) < self.ncol
        &&& forall|k: int| 0 <= k < self.vals@.len() ==> (#[trigger] self.vals@[k]).wf()
    }

    /// The stored triples as model entries, in insertion order.
    pub open spec fn entries(self) -> Seq<(int, int, (int, int))> {
        Seq::new(
            self.vals@.len(),
            |k: int| (self.rows@[k] as int, self.cols@[k] as int, self.vals@[k].pair()),
        )
    }

    /// The number of stored triples, in the model.
    pub open spec fn count_spec(self) -> int {
        self.vals@.len() as int
    }

    /// Creates an empty store for an `nrow` by `ncol` matrix holding at most
    /// `max` triples. All three sizes must be positive.
    pub fn new(nrow: usize, ncol: usize, max: usize) -> (r: Result<SparseTriplet, Error>)
        ensures
            r is Ok <==> (nrow > 0 && ncol > 0 && max > 0),
            r is Err ==> r == Err::<SparseTriplet, Error>(Error::InvalidDimension),
            r is Ok ==> r.unwrap().wf() && r.unwrap().nrow == nrow && r.unwrap().ncol == ncol
                && r.unwrap().capacity == max && r.unwrap().count_spec() == 0 && !r.unwrap().symmetric
                && r.unwrap().entries() == Seq::<(int, int, (int, int))>::empty(),
    {
        if nrow == 0 || ncol == 0 || max == 0 {
            return Err(Error::InvalidDimension);
        }
        let t = SparseTriplet {
            nrow,
            ncol,
            capacity: max,
            symmetric: false,
            rows: Vec::with_capacity(max),
            cols: Vec::with_capacity(max),
            vals: Vec::with_capacity(max),
        };
        proof {
            assert(t.entries() =~= Seq::<(int, int, (int, int))>::empty());
        }
        Ok(t)
    }

    /// Appends the triple `(i, j, x)`. Fails with `IndexOutOfBounds` when an
    /// index lies beyond the declared bounds, and with `CapacityExceeded`
    /// when the store is full; a failed call changes nothing. No
    /// deduplication takes place: the same `(i, j)` may be appended any
    /// number of times.
    pub fn put(&mut self, i: usize, j: usize, x: Rational) -> (r: Result<(), Error>)
        requires
            old(self).wf(),
            x.wf(),
        ensures
            final(self).wf(),
            r == Err::<(), Error>(Error::IndexOutOfBounds) <==> (i >= old(self).nrow || j >= old(
                self,
            ).ncol),
            r == Err::<(), Error>(Error::CapacityExceeded) <==> (i < old(self).nrow && j < old(
                self,
            ).ncol && old(self).count_spec() == old(self).capacity),
            r is Ok <==> (i < old(self).nrow && j < old(self).ncol && old(self).count_spec() < old(
                self,
            ).capacity),
            r is Ok ==> final(self).entries() == old(self).entries().push(
                (i as int, j as int, x.pair()),
            ) && final(self).count_spec() == old(self).count_spec() + 1,
            r is Err ==> *final(self) == *old(self),
            final(self).nrow == old(self).nrow,
            final(self).ncol == old(self).ncol,
            final(self).capacity == old(self).capacity,
            final(self).symmetric == old(self).symmetric,
    {
        if i >= self.nrow {
            return Err(Error::IndexOutOfBounds);
        }
        if j >= self.ncol {
            return Err(Error::IndexOutOfBounds);
        }
        if self.vals.len() >= self.capacity {
            return Err(Error::CapacityExceeded);
        }
        self.rows.push(i);
        self.cols.push(j);
        self.vals.push(x);
        proof {
            assert(self.entries() =~= old(self).entries().push((i as int, j as int, x.pair())));
        }
        Ok(())
    }

    /// Discards the stored triples, keeping the declared bounds, the
    /// capacity, the backing storage and the `symmetric` flag. The store
    /// then accepts a fresh `put` sequence exactly as a newly created store
    /// of the same shape would.
    pub fn reset(&mut self)
        requires
            old(self).wf(),
        ensures
            final(self).wf(),
            final(self).count_spec() == 0,
            final(self).entries() == Seq::<(int, int, (int, int))>::empty(),
            final(self).nrow == old(self).nrow,
            final(self).ncol == old(self).ncol,
            final(self).capacity == old(self).capacity,
            final(self).symmetric == old(self).symmetric,
    {
        self.rows.clear();
        self.cols.clear();
        self.vals.clear();
        proof {
            assert(self.entries() =~= Seq::<(int, int, (int, int))>::empty());
        }
    }

    /// The dimensions `(nrow, ncol)` of the matrix the triples represent.
    pub fn dims(&self) -> (r: (usize, usize))
        ensures
            r == (self.nrow, self.ncol),
    {
        (self.nrow, self.ncol)
    }

    /// The number of triples stored so far.
    pub fn count(&self) -> (r: usize)
        ensures
            r == self.count_spec(),
    {
        self.vals.len()
    }

    /// The maximum number of triples this store can hold.
    pub fn capacity(&self) -> (r: usize)
        ensures
            r == self.capacity,
    {
        self.capacity
    }

    /// Whether only one side of the diagonal was supplied.
    pub fn symmetric(&self) -> (r: bool)
        ensures
            r == self.symmetric,
    {
        self.symmetric
    }

    /// Records whether only one side of the diagonal is being supplied.
    pub fn set_symmetric(&mut self, sym: bool)
        requires
            old(self).wf(),
        ensures
            final(self).wf(),
            final(self).symmetric == sym,
            final(self).nrow == old(self).nrow,
            final(self).ncol == old(self).ncol,
            final(self).capacity == old(self).capacity,
            final(self).entries() == old(self).entries(),
            final(self).count_spec() == old(self).count_spec(),
    {
        self.symmetric = sym;
    }

    /// Materializes the stored triples into the dense window `a`, whose
    /// dimensions may be at most `(nrow, ncol)`: a smaller window extracts
    /// the leading sub-block, a larger one is rejected. The target is
    /// zero-filled, then every triple whose indices fall inside the window
    /// is added (not assigned) at its position, in insertion order — this
    /// additive step is what folds duplicates by summation. The `symmetric`
    /// flag plays no part here: exactly the stored coefficients are
    /// reproduced. On failure the target is left untouched.
    pub fn to_matrix(&self, a: &mut Matrix) -> (r: Result<(), Error>)
        requires
            self.wf(),
            old(a).wf(),
        ensures
            r == Err::<(), Error>(Error::DimensionMismatch) <==> (old(a).nrow > self.nrow || old(
                a,
            ).ncol > self.ncol),
            r == Err::<(), Error>(Error::Overflow) <==> (old(a).nrow <= self.nrow && old(a).ncol
                <= self.ncol && !window_fits(
                self.entries(),
                old(a).nrow as int,
                old(a).ncol as int,
            )),
            r is Ok <==> (old(a).nrow <= self.nrow && old(a).ncol <= self.ncol && window_fits(
                self.entries(),
                old(a).nrow as int,
                old(a).ncol as int,
            )),
            r is Ok ==> final(a).wf() && (forall|i: int, j: int|
                0 <= i < old(a).nrow && 0 <= j < old(a).ncol ==> final(a).at(i, j) == cell_sum(
                    self.entries(),
                    i,
                    j,
                )),
            r is Err ==> *final(a) == *old(a),
            final(a).nrow == old(a).nrow,
            final(a).ncol == old(a).ncol,
    {
        let (m, n) = a.dims();
        if m > self.nrow || n > self.ncol {
            return Err(Error::DimensionMismatch);
        }
        let alen = a.data.len();
        proof {
            assert(alen == m * n);
        }
        let mut work = Matrix::new(m, n);
        let ghost entries = self.entries();
        let count = self.vals.len();
        let mut p: usize = 0;
        while p < count
            invariant
                0 <= p <= count,
                self.wf(),
                count == self.vals@.len(),
                entries == self.entries(),
                work.wf(),
                work.nrow == m,
                work.ncol == n,
                m <= self.nrow,
                n <= self.ncol,
                m == old(a).nrow,
                n == old(a).ncol,
                *a == *old(a),
                forall|i: int, j: int|
                    0 <= i < m && 0 <= j < n ==> (#[trigger] work.at(i, j)) == cell_sum(
                        entries.take(p as int),
                        i,
                        j,
                    ),
                forall|i: int, j: int|
                    0 <= i < m && 0 <= j < n ==> #[trigger] cell_sum_fits(
                        entries.take(p as int),
                        i,
                        j,
                    ),
            decreases count - p,
        {
            let ei = self.rows[p];
            let ej = self.cols[p];
            let ex = self.vals[p];
            let ghost work0 = work;
            proof {
                assert(entries.take(p as int + 1).drop_last() =~= entries.take(p as int));
                assert(entries.take(p as int + 1).last() == (ei as int, ej as int, ex.pair()));
            }
            if ei < m && ej < n {
                match work.add_into(ei, ej, ex) {
                    Ok(_) => {
                        proof {
                            assert forall|i: int, j: int| 0 <= i < m && 0 <= j < n implies (
                            #[trigger] work.at(i, j)) == cell_sum(entries.take(p as int + 1), i, j)
                                && cell_sum_fits(entries.take(p as int + 1), i, j) by {
                                assert(work0.at(i, j) == cell_sum(entries.take(p as int), i, j));
                                assert(cell_sum_fits(entries.take(p as int), i, j));
                                if i == ei as int && j == ej as int {
                                    assert(work.at(i, j) == radd(work0.at(i, j), ex.pair()));
                                } else {
                                    assert(work.at(i, j) == work0.at(i, j));
                                }
                            }
                            assert forall|i: int, j: int| 0 <= i < m && 0 <= j
                                < n implies #[trigger] cell_sum_fits(
                                entries.take(p as int + 1),
                                i,
                                j,
                            ) by {
                                assert(work0.at(i, j) == cell_sum(entries.take(p as int), i, j));
                                assert(cell_sum_fits(entries.take(p as int), i, j));
                            }
                        }
                    },
                    Err(_) => {
                        proof {
                            assert(work0.at(ei as int, ej as int) == cell_sum(
                                entries.take(p as int),
                                ei as int,
                                ej as int,
                            ));
                            assert(cell_sum_fits(entries.take(p as int), ei as int, ej as int));
                            assert(!cell_sum_fits(
                                entries.take(p as int + 1),
                                ei as int,
                                ej as int,
                            ));
                            if cell_sum_fits(entries, ei as int, ej as int) {
                                lemma_cell_sum_fits_prefix(
                                    entries,
                                    p as int + 1,
                                    ei as int,
                                    ej as int,
                                );
                            }
                            assert(!window_fits(entries, m as int, n as int));
                        }
                        return Err(Error::Overflow);
                    },
                }
            } else {
                proof {
                    assert forall|i: int, j: int| 0 <= i < m && 0 <= j < n implies (
                    #[trigger] work.at(i, j)) == cell_sum(entries.take(p as int + 1), i, j)
                        && cell_sum_fits(entries.take(p as int + 1), i, j) by {
                        assert(work.at(i, j) == cell_sum(entries.take(p as int), i, j));
                        assert(cell_sum_fits(entries.take(p as int), i, j));
                        assert(!(i == ei as int && j == ej as int));
                    }
                    assert forall|i: int, j: int| 0 <= i < m && 0 <= j
                        < n implies #[trigger] cell_sum_fits(
                        entries.take(p as int + 1),
                        i,
                        j,
                    ) by {
                        assert(cell_sum_fits(entries.take(p as int), i, j));
                        assert(!(i == ei as int && j == ej as int));
                    }
                }
            }
            p += 1;
        }
        proof {
            assert(entries.take(count as int) =~= entries);
            assert forall|i: int, j: int| 0 <= i < m && 0 <= j < n implies cell_sum_fits(
                entries,
                i,
                j,
            ) by {
                assert(cell_sum_fits(entries.take(count as int), i, j));
            }
            assert(window_fits(entries, m as int, n as int));
        }
        a.data = work.data;
        Ok(())
    }

    /// The product of the matrix the stored triples represent with `u`,
    /// computed directly from the triples in insertion order. Each triple
    /// `(i, j, a)` contributes `a * u[j]` to component `i`; with
    /// `triangular` set, each off-diagonal triple also contributes
    /// `a * u[i]` to component `j`, mirroring the implicit symmetric
    /// counterpart that triangular storage leaves out; mirroring only makes
    /// sense for a square matrix, so `triangular` demands one. Callers who
    /// stored both triangles pass `triangular == false`.
    pub fn mat_vec_mul(&self, u: &Vector, triangular: bool) -> (r: Result<Vector, Error>)
        requires
            self.wf(),
            u.wf(),
        ensures
            r == Err::<Vector, Error>(Error::DimensionMismatch) <==> (u.dim_spec() != self.ncol
                || (triangular && self.nrow != self.ncol)),
            r == Err::<Vector, Error>(Error::Overflow) <==> (u.dim_spec() == self.ncol && (
            !triangular || self.nrow == self.ncol) && !mv_fits(
                self.entries(),
                u.pairs(),
                triangular,
            )),
            r is Ok <==> (u.dim_spec() == self.ncol && (!triangular || self.nrow == self.ncol)
                && mv_fits(self.entries(), u.pairs(), triangular)),
            r is Ok ==> r.unwrap().wf() && r.unwrap().dim_spec() == self.nrow && (forall|k: int|
                0 <= k < self.nrow ==> r.unwrap().pairs()[k] == mv_row(
                    self.entries(),
                    u.pairs(),
                    triangular,
                    k,
                )),
    {
        if u.dim() != self.ncol {
            return Err(Error::DimensionMismatch);
        }
        if triangular && self.nrow != self.ncol {
            return Err(Error::DimensionMismatch);
        }
        let mut v = Vector::new(self.nrow);
        let ghost entries = self.entries();
        let ghost upairs = u.pairs();
        let count = self.vals.len();
        let mut p: usize = 0;
        while p < count
            invariant
                0 <= p <= count,
                self.wf(),
                u.wf(),
                u.dim_spec() == self.ncol,
                count == self.vals@.len(),
                entries == self.entries(),
                upairs == u.pairs(),
                v.wf(),
                v.dim_spec() == self.nrow,
                triangular ==> self.nrow == self.ncol,
                mv_fits(entries.take(p as int), upairs, triangular),
                forall|k: int|
                    0 <= k < self.nrow ==> v.pairs()[k] == mv_row(
                        entries.take(p as int),
                        upairs,
                        triangular,
                        k,
                    ),
            decreases count - p,
        {
            let ei = self.rows[p];
            let ej = self.cols[p];
            let ea = self.vals[p];
            proof {
                assert(entries.take(p as int + 1).drop_last() =~= entries.take(p as int));
                assert(entries.take(p as int + 1).last() == (ei as int, ej as int, ea.pair()));
                assert(upairs[ej as int] == u.data@[ej as int].pair());
                if triangular {
                    assert(upairs[ei as int] == u.data@[ei as int].pair());
                }
            }
            let t1 = match ea.checked_mul(&u.data[ej]) {
                Some(t) => t,
                None => {
                    proof {
                        assert(!mv_fits(entries.take(p as int + 1), upairs, triangular));
                        if mv_fits(entries, upairs, triangular) {
                            lemma_mv_fits_prefix(entries, upairs, triangular, p as int + 1);
                        }
                    }
                    return Err(Error::Overflow);
                },
            };
            match v.add_into(ei, t1) {
                Ok(_) => {},
                Err(_) => {
                    proof {
                        assert(!mv_fits(entries.take(p as int + 1), upairs, triangular));
                        if mv_fits(entries, upairs, triangular) {
                            lemma_mv_fits_prefix(entries, upairs, triangular, p as int + 1);
                        }
                    }
                    return Err(Error::Overflow);
                },
            }
            if triangular && ei != ej {
                let t2 = match ea.checked_mul(&u.data[ei]) {
                    Some(t) => t,
                    None => {
                        proof {
                            assert(!mv_fits(entries.take(p as int + 1), upairs, triangular));
                            if mv_fits(entries, upairs, triangular) {
                                lemma_mv_fits_prefix(entries, upairs, triangular, p as int + 1);
                            }
                        }
                        return Err(Error::Overflow);
                    },
                };
                match v.add_into(ej, t2) {
                    Ok(_) => {},
                    Err(_) => {
                        proof {
                            assert(!mv_fits(entries.take(p as int + 1), upairs, triangular));
                            if mv_fits(entries, upairs, triangular) {
                                lemma_mv_fits_prefix(entries, upairs, triangular, p as int + 1);
                            }
                        }
                        return Err(Error::Overflow);
                    },
                }
            }
            proof {
                assert forall|k: int| 0 <= k < self.nrow implies v.pairs()[k] == mv_row(
                    entries.take(p as int + 1),
                    upairs,
                    triangular,
                    k,
                ) by {}
                assert(mv_fits(entries.take(p as int + 1), upairs, triangular));
            }
            p += 1;
        }
        proof {
            assert(entries.take(count as int) =~= entries);
        }
        Ok(v)
    }

    /// The stored row indices, in insertion order.
    pub fn row_indices(&self) -> (r: &Vec<usize>)
        ensures
            r@ == self.rows@,
    {
        &self.rows
    }

    /// The stored column indices, in insertion order.
    pub fn col_indices(&self) -> (r: &Vec<usize>)
        ensures
            r@ == self.cols@,
    {
        &self.cols
    }

    /// The stored values, in insertion order.
    pub fn values(&self) -> (r: &Vec<Rational>)
        ensures
            r@ == self.vals@,
    {
        &self.vals
    }
}

} // verus!
