use vstd::prelude::*;

use crate::error::Error;
use crate::rational::{
    max_abs_fold, max_abs_fold_fits, max_abs_values, pairs_of, radd, Rational,
};

verus! {

/// A fixed-size dense vector of exact rational components.
///
/// The dimension is fixed at construction; mutation goes through explicit
/// `set`, `add_into` and `fill` operations, and there is no implicit
/// resizing.
pub struct Vector {
    pub data: Vec<Rational>,
}

impl Vector {
    /// Every component has a positive denominator.
    pub open spec fn wf(self) -> bool {
        forall|k: int| 0 <= k < self.data@.len() ==> (#[trigger] self.data@[k]).wf()
    }

    /// The model pairs of the components, in order.
    pub open spec fn pairs(self) -> Seq<(int, int)> {
        pairs_of(self.data@)
    }

    /// The dimension, in the model.
    pub open spec fn dim_spec(self) -> int {
        self.data@.len() as int
    }

    /// Builds a vector of `n` zero components.
    pub fn new(n: usize) -> (r: Vector)
        ensures
            r.wf(),
            r.dim_spec() == n,
            forall|k: int| 0 <= k < n ==> r.pairs()[k] == crate::rational::rzero(),
    {
        let mut data: Vec<Rational> = Vec::new();
        let mut p: usize = 0;
        while p < n
            invariant
                0 <= p <= n,
                data@.len() == p,
                forall|k: int|
                    0 <= k < p ==> (#[trigger] data@[k]).pair() == crate::rational::rzero()
                        && data@[k].wf(),
            decreases n - p,
        {
            data.push(Rational::zero());
            p += 1;
        }
        Vector { data }
    }

    /// Wraps the given components as a vector.
    pub fn from_vec(data: Vec<Rational>) -> (r: Vector)
        requires
            forall|k: int| 0 <= k < data@.len() ==> (#[trigger] data@[k]).wf(),
        ensures
            r.wf(),
            r.data@ == data@,
    {
        Vector { data }
    }

    /// The dimension of this vector.
    pub fn dim(&self) -> (r: usize)
        ensures
            r == self.dim_spec(),
    {
        self.data.len()
    }

    /// Reads the component at `i`; fails when `i` lies beyond the dimension.
    pub fn get(&self, i: usize) -> (r: Result<Rational, Error>)
        ensures
            r is Ok <==> i < self.dim_spec(),
            r is Ok ==> r.unwrap() == self.data@[i as int],
            r is Err ==> r == Err::<Rational, Error>(Error::IndexOutOfBounds),
    {
        if i < self.data.len() {
            Ok(self.data[i])
        } else {
            Err(Error::IndexOutOfBounds)
        }
    }

    /// Writes `x` at `i`; fails, changing nothing, when `i` lies beyond the
    /// dimension.
    pub fn set(&mut self, i: usize, x: Rational) -> (r: Result<(), Error>)
        requires
            x.wf(),
            old(self).wf(),
        ensures
            r is Ok <==> i < old(self).dim_spec(),
            r is Ok ==> final(self).data@ == old(self).data@.update(i as int, x),
            r is Err ==> r == Err::<(), Error>(Error::IndexOutOfBounds) && *final(self) == *old(
                self,
            ),
            final(self).wf(),
    {
        if i < self.data.len() {
            self.data[i] = x;
            Ok(())
        } else {
            Err(Error::IndexOutOfBounds)
        }
    }

    /// Adds `x` into the component at `i`; fails, changing nothing, when `i`
    /// lies beyond the dimension or the exact sum cannot be represented.
    pub fn add_into(&mut self, i: usize, x: Rational) -> (r: Result<(), Error>)
        requires
            x.wf(),
            old(self).wf(),
        ensures
            r is Ok <==> (i < old(self).dim_spec() && crate::rational::fits(
                radd(old(self).pairs()[i as int], x.pair()),
            )),
            r is Ok ==> final(self).dim_spec() == old(self).dim_spec()
                && final(self).pairs()[i as int] == radd(old(self).pairs()[i as int], x.pair())
                && (forall|k: int|
                    0 <= k < old(self).dim_spec() && k != i ==> final(self).pairs()[k] == old(
                        self,
                    ).pairs()[k]),
            r is Err ==> *final(self) == *old(self) && (r == Err::<(), Error>(
                Error::IndexOutOfBounds,
            ) <==> i >= old(self).dim_spec()) && (r == Err::<(), Error>(Error::Overflow) <==> (i
                < old(self).dim_spec() && !crate::rational::fits(
                radd(old(self).pairs()[i as int], x.pair()),
            ))),
            final(self).wf(),
    {
        if i < self.data.len() {
            match self.data[i].checked_add(&x) {
                Some(s) => {
                    self.data[i] = s;
                    Ok(())
                },
                None => Err(Error::Overflow),
            }
        } else {
            Err(Error::IndexOutOfBounds)
        }
    }

    /// Sets every component to `x`.
    pub fn fill(&mut self, x: Rational)
        requires
            x.wf(),
            old(self).wf(),
        ensures
            final(self).wf(),
            final(self).dim_spec() == old(self).dim_spec(),
            forall|k: int| 0 <= k < old(self).dim_spec() ==> final(self).pairs()[k] == x.pair(),
    {
        let n = self.data.len();
        let mut p: usize = 0;
        while p < n
            invariant
                0 <= p <= n,
                self.data@.len() == n,
                forall|k: int| 0 <= k < p ==> (#[trigger] self.data@[k]) == x,
                forall|k: int| p <= k < n ==> (#[trigger] self.data@[k]).wf(),
                x.wf(),
            decreases n - p,
        {
            self.data[p] = x;
            p += 1;
        }
    }

    /// The largest absolute value among the components, scanned in order;
    /// zero for an empty vector. Fails only when a new maximum cannot be
    /// represented.
    pub fn max_abs(&self) -> (r: Result<Rational, Error>)
        requires
            self.wf(),
        ensures
            r is Ok <==> max_abs_fold_fits(self.pairs()),
            r is Ok ==> r.unwrap().pair() == max_abs_fold(self.pairs()) && r.unwrap().wf(),
            r is Err ==> r == Err::<Rational, Error>(Error::Overflow),
    {
        max_abs_values(&self.data)
    }
}

} // verus!
