use vstd::prelude::*;

use crate::error::Error;
use crate::rational::{
    fits, lemma_max_abs_fold_nonneg, max_abs_fold, max_abs_fold_fits, max_abs_values, pairs_of,
    radd, rat_wf, rdiv, rsub, Rational,
};
use crate::triplet::{mv_fits, mv_row, SparseTriplet};
use crate::vector::Vector;

verus! {

#[verifier::external_type_specification]
#[verifier::external_body]
pub struct ExInstant(std::time::Instant);

/// Relies on `std::time::Instant::now` for the timing instrumentation: an
/// opaque monotonic time point. Nothing is assumed of its value.
#[verifier::external_body]
fn instant_now() -> std::time::Instant {
    std::time::Instant::now()
}

/// Relies on `std::time::Instant::elapsed` for the timing instrumentation:
/// the wall-clock time since `t`, converted to nanoseconds. Nothing is
/// assumed of its value.
#[verifier::external_body]
fn elapsed_nanos(t: &std::time::Instant) -> u128 {
    t.elapsed().as_nanos()
}

/// The product `A x` as a sequence of model pairs, one per row.
pub open spec fn ax_pairs(
    s: Seq<(int, int, (int, int))>,
    x: Seq<(int, int)>,
    tri: bool,
    nrow: int,
) -> Seq<(int, int)> {
    Seq::new(nrow as nat, |k: int| mv_row(s, x, tri, k))
}

/// The residual `A x - rhs` as a sequence of model pairs.
pub open spec fn diff_pairs(ax: Seq<(int, int)>, rhs: Seq<(int, int)>) -> Seq<(int, int)> {
    Seq::new(ax.len(), |k: int| rsub(ax[k], rhs[k]))
}

/// Every component of the residual stays representable.
pub open spec fn diff_fits(ax: Seq<(int, int)>, rhs: Seq<(int, int)>) -> bool {
    forall|k: int| 0 <= k < ax.len() ==> fits(#[trigger] rsub(ax[k], rhs[k]))
}

/// Every intermediate value of the whole verification stays representable.
pub open spec fn verify_fits(trip: SparseTriplet, x: Vector, rhs: Vector, tri: bool) -> bool {
    let vals = pairs_of(trip.vals@);
    let ax = ax_pairs(trip.entries(), x.pairs(), tri, trip.nrow as int);
    let diff = diff_pairs(ax, rhs.pairs());
    &&& max_abs_fold_fits(vals)
    &&& mv_fits(trip.entries(), x.pairs(), tri)
    &&& max_abs_fold_fits(ax)
    &&& diff_fits(ax, rhs.pairs())
    &&& max_abs_fold_fits(diff)
    &&& fits(radd(max_abs_fold(vals), (1int, 1int)))
    &&& fits(rdiv(max_abs_fold(diff), radd(max_abs_fold(vals), (1int, 1int))))
}

/// The outcome of independently checking a candidate solution `x` of the
/// linear system `A x = rhs`: the largest coefficient magnitude, the largest
/// component magnitude of `A x` and of the residual `A x - rhs`, the
/// magnitude-relative error, and the wall-clock time the check took.
///
/// Produced once by [`VerifyLinSys::new`] and not subsequently mutated.
pub struct VerifyLinSys {
    pub max_abs_a: Rational,
    pub max_abs_ax: Rational,
    pub max_abs_diff: Rational,
    pub relative_error: Rational,
    pub time_check: u128,
}

impl VerifyLinSys {
    /// Checks the candidate solution `x` against `rhs` by recomputing the
    /// product `A x` directly from the stored triples (honoring `triangular`
    /// storage exactly as [`SparseTriplet::mat_vec_mul`] does), the residual
    /// `A x - rhs`, and the relative error
    /// `max_abs_diff / (max_abs_a + 1)`, whose `+ 1` keeps the metric
    /// well-defined even for an all-zero matrix. The elapsed wall-clock time
    /// of the computation is recorded in `time_check`.
    pub fn new(trip: &SparseTriplet, x: &Vector, rhs: &Vector, triangular: bool) -> (r: Result<
        VerifyLinSys,
        Error,
    >)
        requires
            trip.wf(),
            x.wf(),
            rhs.wf(),
        ensures
            r == Err::<VerifyLinSys, Error>(Error::DimensionMismatch) <==> (x.dim_spec()
                != trip.ncol || rhs.dim_spec() != trip.nrow || (triangular && trip.nrow
                != trip.ncol)),
            r == Err::<VerifyLinSys, Error>(Error::Overflow) <==> (x.dim_spec() == trip.ncol
                && rhs.dim_spec() == trip.nrow && (!triangular || trip.nrow == trip.ncol)
                && !verify_fits(*trip, *x, *rhs, triangular)),
            r is Ok <==> (x.dim_spec() == trip.ncol && rhs.dim_spec() == trip.nrow && (!triangular
                || trip.nrow == trip.ncol) && verify_fits(*trip, *x, *rhs, triangular)),
            r is Ok ==> r.unwrap().max_abs_a.pair() == max_abs_fold(pairs_of(trip.vals@))
                && r.unwrap().max_abs_a.wf(),
            r is Ok ==> r.unwrap().max_abs_ax.pair() == max_abs_fold(
                ax_pairs(trip.entries(), x.pairs(), triangular, trip.nrow as int),
            ) && r.unwrap().max_abs_ax.wf(),
            r is Ok ==> r.unwrap().max_abs_diff.pair() == max_abs_fold(
                diff_pairs(
                    ax_pairs(trip.entries(), x.pairs(), triangular, trip.nrow as int),
                    rhs.pairs(),
                ),
            ) && r.unwrap().max_abs_diff.wf(),
            r is Ok ==> r.unwrap().relative_error.pair() == rdiv(
                max_abs_fold(
                    diff_pairs(
                        ax_pairs(trip.entries(), x.pairs(), triangular, trip.nrow as int),
                        rhs.pairs(),
                    ),
                ),
                radd(max_abs_fold(pairs_of(trip.vals@)), (1int, 1int)),
            ) && r.unwrap().relative_error.wf(),
    {
        if x.dim() != trip.ncol || rhs.dim() != trip.nrow {
            return Err(Error::DimensionMismatch);
        }
        if triangular && trip.nrow != trip.ncol {
            return Err(Error::DimensionMismatch);
        }
        let ghost ax_spec = ax_pairs(trip.entries(), x.pairs(), triangular, trip.nrow as int);
        let ghost dif_spec = diff_pairs(ax_spec, rhs.pairs());

        let start = instant_now();

        // largest coefficient magnitude, scanned in insertion order
        let max_abs_a = match max_abs_values(trip.values()) {
            Ok(v) => v,
            Err(_) => {
                return Err(Error::Overflow);
            },
        };

        // the product A x, recomputed from the triples
        let ax = match trip.mat_vec_mul(x, triangular) {
            Ok(v) => v,
            Err(_) => {
                return Err(Error::Overflow);
            },
        };
        proof {
            assert forall|p: int| 0 <= p < trip.nrow implies pairs_of(ax.data@)[p]
                == ax_spec[p] by {
                assert(ax.pairs()[p] == mv_row(trip.entries(), x.pairs(), triangular, p));
            }
            assert(pairs_of(ax.data@) =~= ax_spec);
        }
        let max_abs_ax = match ax.max_abs() {
            Ok(v) => v,
            Err(_) => {
                return Err(Error::Overflow);
            },
        };

        // the residual A x - rhs, component by component
        let n = rhs.dim();
        let mut diff: Vec<Rational> = Vec::new();
        let mut k: usize = 0;
        while k < n
            invariant
                0 <= k <= n,
                trip.wf(),
                x.wf(),
                rhs.wf(),
                ax.wf(),
                x.dim_spec() == trip.ncol,
                rhs.dim_spec() == trip.nrow,
                triangular ==> trip.nrow == trip.ncol,
                n == rhs.dim_spec(),
                n == ax.dim_spec(),
                ax_spec == ax_pairs(trip.entries(), x.pairs(), triangular, trip.nrow as int),
                dif_spec == diff_pairs(ax_spec, rhs.pairs()),
                pairs_of(ax.data@) == ax_spec,
                diff@.len() == k,
                forall|p: int|
                    0 <= p < k ==> (#[trigger] diff@[p]).pair() == rsub(
                        ax.pairs()[p],
                        rhs.pairs()[p],
                    ) && diff@[p].wf(),
            decreases n - k,
        {
            match ax.data[k].checked_sub(&rhs.data[k]) {
                Some(d) => {
                    diff.push(d);
                },
                None => {
                    proof {
                        assert(ax.data@[k as int].pair() == ax_spec[k as int]);
                        assert(rhs.data@[k as int].pair() == rhs.pairs()[k as int]);
                        assert(!fits(rsub(ax_spec[k as int], rhs.pairs()[k as int])));
                        assert(!diff_fits(ax_spec, rhs.pairs()));
                    }
                    return Err(Error::Overflow);
                },
            }
            k += 1;
        }
        proof {
            assert(pairs_of(diff@) =~= dif_spec);
        }
        let max_abs_diff = match max_abs_values(&diff) {
            Ok(v) => v,
            Err(_) => {
                return Err(Error::Overflow);
            },
        };

        // relative error: residual magnitude over coefficient magnitude + 1
        let denom = match max_abs_a.checked_add(&Rational::from_int(1)) {
            Some(d) => d,
            None => {
                return Err(Error::Overflow);
            },
        };
        proof {
            assert(forall|p: int|
                0 <= p < trip.vals@.len() ==> rat_wf(#[trigger] pairs_of(trip.vals@)[p]));
            lemma_max_abs_fold_nonneg(pairs_of(trip.vals@));
            assert(denom.pair().0 == max_abs_fold(pairs_of(trip.vals@)).0 + max_abs_fold(
                pairs_of(trip.vals@),
            ).1);
            assert(denom.pair().0 > 0);
        }
        let relative_error = match max_abs_diff.checked_div(&denom) {
            Some(q) => q,
            None => {
                return Err(Error::Overflow);
            },
        };

        proof {
            assert forall|p: int| 0 <= p < ax_spec.len() implies fits(
                #[trigger] rsub(ax_spec[p], rhs.pairs()[p]),
            ) by {
                assert(diff@[p].pair() == rsub(ax.pairs()[p], rhs.pairs()[p]));
                assert(fits(diff@[p].pair()));
            }
            assert(verify_fits(*trip, *x, *rhs, triangular));
        }
        let time_check = elapsed_nanos(&start);
        Ok(
            VerifyLinSys {
                max_abs_a,
                max_abs_ax,
                max_abs_diff,
                relative_error,
                time_check,
            },
        )
    }
}

} // verus!
