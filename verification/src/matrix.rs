use vstd::prelude::*;

use crate::error::Error;
use crate::rational::{fits, radd, rzero, Rational};

verus! {

/// Position of the cell `(i, j)` inside a row-major buffer with `ncol`
/// columns.
pub open spec fn flat_index(i: int, j: int, ncol: int) -> int {
    i * ncol + j
}

/// A cell inside the window lies inside the buffer.
pub proof fn lemma_flat_index_in_range(i: int, j: int, nrow: int, ncol: int)
    by (nonlinear_arith)
    requires
        0 <= i < nrow,
        0 <= j < ncol,
    ensures
        0 <= flat_index(i, j, ncol) < nrow * ncol,
{
}

/// Distinct cells of the window occupy distinct buffer positions.
pub proof fn lemma_flat_index_injective(i1: int, j1: int, i2: int, j2: int, ncol: int)
    by (nonlinear_arith)
    requires
        0 <= j1 < ncol,
        0 <= j2 < ncol,
        0 <= i1,
        0 <= i2,
        !(i1 == i2 && j1 == j2),
    ensures
        flat_index(i1, j1, ncol) != flat_index(i2, j2, ncol),
{
}

/// A fixed-size dense matrix of exact rational cells, stored row-major in a
/// contiguous buffer.
///
/// The dimensions are fixed at construction; mutation goes through explicit
/// `set`, `add_into` and `fill` operations, and there is no implicit
/// resizing.
pub struct Matrix {
    pub nrow: usize,
    pub ncol: usize,
    pub data: Vec<Rational>,
}

impl Matrix {
    /// The buffer holds exactly one well-formed cell per position.
    pub open spec fn wf(self) -> bool {
        &&& self.data@.len() == self.nrow * self.ncol
        &&& forall|k: int| 0 <= k < self.data@.len() ==> (#[trigger] self.data@[k]).wf()
    }

    /// The model pair stored at cell `(i, j)`.
    pub open spec fn at(self, i: int, j: int) -> (int, int) {
        self.data@[flat_index(i, j, self.ncol as int)].pair()
    }

    /// Builds an `nrow` by `ncol` matrix of zero cells.
    pub fn new(nrow: usize, ncol: usize) -> (r: Matrix)
        requires
            nrow * ncol <= usize::MAX,
        ensures
            r.wf(),
            r.nrow == nrow,
            r.ncol == ncol,
            forall|i: int, j: int| 0 <= i < nrow && 0 <= j < ncol ==> r.at(i, j) == rzero(),
    {
        proof {
            assert(nrow * ncol >= 0) by (nonlinear_arith);
        }
        let total: usize = nrow * ncol;
        let mut data: Vec<Rational> = Vec::new();
        let mut p: usize = 0;
        while p < total
            invariant
                0 <= p <= total,
                data@.len() == p,
                forall|k: int|
                    0 <= k < p ==> (#[trigger] data@[k]).pair() == rzero() && data@[k].wf(),
            decreases total - p,
        {
            data.push(Rational::zero());
            p += 1;
        }
        let r = Matrix { nrow, ncol, data };
        proof {
            assert forall|i: int, j: int| 0 <= i < nrow && 0 <= j < ncol implies r.at(i, j)
                == rzero() by {
                lemma_flat_index_in_range(i, j, nrow as int, ncol as int);
            }
        }
        r
    }

    /// The buffer position of the in-bounds cell `(i, j)`.
    fn cell_index(&self, i: usize, j: usize) -> (r: usize)
        requires
            self.wf(),
            i < self.nrow,
            j < self.ncol,
        ensures
            r == flat_index(i as int, j as int, self.ncol as int),
            r < self.data@.len(),
    {
        let len = self.data.len();
        proof {
            lemma_flat_index_in_range(i as int, j as int, self.nrow as int, self.ncol as int);
        }
        i * self.ncol + j
    }

    /// The dimensions `(nrow, ncol)` of this matrix.
    pub fn dims(&self) -> (r: (usize, usize))
        ensures
            r == (self.nrow, self.ncol),
    {
        (self.nrow, self.ncol)
    }

    /// Reads the cell at `(i, j)`; fails when the position lies beyond the
    /// dimensions.
    pub fn get(&self, i: usize, j: usize) -> (r: Result<Rational, Error>)
        requires
            self.wf(),
        ensures
            r is Ok <==> (i < self.nrow && j < self.ncol),
            r is Ok ==> r.unwrap().pair() == self.at(i as int, j as int) && r.unwrap().wf(),
            r is Err ==> r == Err::<Rational, Error>(Error::IndexOutOfBounds),
    {
        if i < self.nrow && j < self.ncol {
            let idx: usize = self.cell_index(i, j);
            Ok(self.data[idx])
        } else {
            Err(Error::IndexOutOfBounds)
        }
    }

    /// Writes `x` at `(i, j)`; fails, changing nothing, when the position
    /// lies beyond the dimensions.
    pub fn set(&mut self, i: usize, j: usize, x: Rational) -> (r: Result<(), Error>)
        requires
            x.wf(),
            old(self).wf(),
        ensures
            r is Ok <==> (i < old(self).nrow && j < old(self).ncol),
            r is Ok ==> final(self).at(i as int, j as int) == x.pair() && (forall|i2: int, j2: int|
                0 <= i2 < old(self).nrow && 0 <= j2 < old(self).ncol && !(i2 == i && j2 == j)
                    ==> final(self).at(i2, j2) == old(self).at(i2, j2)),
            r is Err ==> r == Err::<(), Error>(Error::IndexOutOfBounds) && *final(self) == *old(
                self,
            ),
            final(self).wf(),
            final(self).nrow == old(self).nrow,
            final(self).ncol == old(self).ncol,
    {
        if i < self.nrow && j < self.ncol {
            let idx: usize = self.cell_index(i, j);
            self.data[idx] = x;
            proof {
                assert forall|i2: int, j2: int|
                    0 <= i2 < old(self).nrow && 0 <= j2 < old(self).ncol && !(i2 == i && j2
                        == j) implies self.at(i2, j2) == old(self).at(i2, j2) by {
                    lemma_flat_index_in_range(i2, j2, self.nrow as int, self.ncol as int);
                    lemma_flat_index_injective(i2, j2, i as int, j as int, self.ncol as int);
                }
            }
            Ok(())
        } else {
            Err(Error::IndexOutOfBounds)
        }
    }

    /// Adds `x` into the cell at `(i, j)`; fails, changing nothing, when the
    /// position lies beyond the dimensions or the exact sum cannot be
    /// represented.
    pub fn add_into(&mut self, i: usize, j: usize, x: Rational) -> (r: Result<(), Error>)
        requires
            x.wf(),
            old(self).wf(),
        ensures
            r is Ok <==> (i < old(self).nrow && j < old(self).ncol && fits(
                radd(old(self).at(i as int, j as int), x.pair()),
            )),
            r is Ok ==> final(self).at(i as int, j as int) == radd(
                old(self).at(i as int, j as int),
                x.pair(),
            ) && (forall|i2: int, j2: int|
                0 <= i2 < old(self).nrow && 0 <= j2 < old(self).ncol && !(i2 == i && j2 == j)
                    ==> final(self).at(i2, j2) == old(self).at(i2, j2)),
            r is Err ==> *final(self) == *old(self) && (r == Err::<(), Error>(
                Error::IndexOutOfBounds,
            ) <==> !(i < old(self).nrow && j < old(self).ncol)),
            final(self).wf(),
            final(self).nrow == old(self).nrow,
            final(self).ncol == old(self).ncol,
    {
        if i < self.nrow && j < self.ncol {
            let idx: usize = self.cell_index(i, j);
            match self.data[idx].checked_add(&x) {
                Some(s) => {
                    self.data[idx] = s;
                    proof {
                        assert forall|i2: int, j2: int|
                            0 <= i2 < old(self).nrow && 0 <= j2 < old(self).ncol && !(i2 == i && j2
                                == j) implies self.at(i2, j2) == old(self).at(i2, j2) by {
                            lemma_flat_index_in_range(i2, j2, self.nrow as int, self.ncol as int);
                            lemma_flat_index_injective(
                                i2,
                                j2,
                                i as int,
                                j as int,
                                self.ncol as int,
                            );
                        }
                    }
                    Ok(())
                },
                None => Err(Error::Overflow),
            }
        } else {
            Err(Error::IndexOutOfBounds)
        }
    }

    /// Sets every cell to `x`.
    pub fn fill(&mut self, x: Rational)
        requires
            x.wf(),
            old(self).wf(),
        ensures
            final(self).wf(),
            final(self).nrow == old(self).nrow,
            final(self).ncol == old(self).ncol,
            forall|i: int, j: int|
                0 <= i < old(self).nrow && 0 <= j < old(self).ncol ==> final(self).at(i, j)
                    == x.pair(),
    {
        let n = self.data.len();
        let mut p: usize = 0;
        while p < n
            invariant
                0 <= p <= n,
                self.data@.len() == n,
                self.nrow == old(self).nrow,
                self.ncol == old(self).ncol,
                n == self.nrow * self.ncol,
                forall|k: int| 0 <= k < p ==> (#[trigger] self.data@[k]) == x,
                forall|k: int| p <= k < n ==> (#[trigger] self.data@[k]).wf(),
                x.wf(),
            decreases n - p,
        {
            self.data[p] = x;
            p += 1;
        }
        proof {
            assert forall|i: int, j: int|
                0 <= i < old(self).nrow && 0 <= j < old(self).ncol implies self.at(i, j)
                == x.pair() by {
                lemma_flat_index_in_range(i, j, self.nrow as int, self.ncol as int);
            }
        }
    }
}

} // verus!
