use vstd::prelude::*;

use crate::matrix::Matrix;
use crate::rational::{
    lemma_max_abs_fold_nonneg, lemma_radd_assoc, lemma_radd_comm, max_abs_fold, pairs_of, radd,
    rat_wf, rdiv, req, rlt, rmul, rsub, rzero,
};
use crate::triplet::{cell_sum, mv_row, SparseTriplet};
use crate::vector::Vector;
use crate::verify::{ax_pairs, diff_pairs};

verus! {

// ---------------------------------------------------------------------------
// Filling a store to capacity
// ---------------------------------------------------------------------------

/// Every request of `reqs`, applied in order to a store that currently holds
/// `cnt` triples, satisfies the success condition of `put`: indices inside
/// the bounds and room left under `cap`.
pub open spec fn puts_ok(
    nrow: int,
    ncol: int,
    cap: int,
    cnt: int,
    reqs: Seq<(int, int, (int, int))>,
) -> bool
    decreases reqs.len(),
{
    if reqs.len() == 0 {
        true
    } else {
        let e = reqs.first();
        &&& 0 <= e.0 < nrow
        &&& 0 <= e.1 < ncol
        &&& cnt < cap
        &&& puts_ok(nrow, ncol, cap, cnt + 1, reqs.drop_first())
    }
}

/// A store with room for exactly `reqs.len()` more triples accepts every
/// in-bounds request of `reqs`: each `put` meets its success condition, and
/// after the last one the store holds `cap` triples, so by the contract of
/// `put` one further call fails with `CapacityExceeded`.
pub proof fn lemma_put_fills_capacity(
    nrow: int,
    ncol: int,
    cap: int,
    cnt: int,
    reqs: Seq<(int, int, (int, int))>,
)
    requires
        0 <= cnt,
        cnt + reqs.len() == cap,
        forall|k: int|
            0 <= k < reqs.len() ==> 0 <= (#[trigger] reqs[k]).0 < nrow && 0 <= reqs[k].1 < ncol,
    ensures
        puts_ok(nrow, ncol, cap, cnt, reqs),
    decreases reqs.len(),
{
    if reqs.len() > 0 {
        assert(forall|k: int|
            0 <= k < reqs.drop_first().len() ==> reqs.drop_first()[k] == reqs[k + 1]);
        lemma_put_fills_capacity(nrow, ncol, cap, cnt + 1, reqs.drop_first());
    }
}

// ---------------------------------------------------------------------------
// Reset behaves like a fresh store
// ---------------------------------------------------------------------------

/// The entries a store holds after a sequence of `put` requests, applied in
/// order; a request outside the bounds, or arriving when the store is full,
/// is refused and changes nothing, exactly as `put` specifies.
pub open spec fn apply_puts(
    nrow: int,
    ncol: int,
    cap: int,
    entries: Seq<(int, int, (int, int))>,
    reqs: Seq<(int, int, (int, int))>,
) -> Seq<(int, int, (int, int))>
    decreases reqs.len(),
{
    if reqs.len() == 0 {
        entries
    } else {
        let e = reqs.first();
        let next = if 0 <= e.0 < nrow && 0 <= e.1 < ncol && entries.len() < cap {
            entries.push(e)
        } else {
            entries
        };
        apply_puts(nrow, ncol, cap, next, reqs.drop_first())
    }
}

/// After `reset`, a store behaves under `put` exactly as a freshly created
/// store of the same `(nrow, ncol, capacity)` does: `reset` leaves the entry
/// sequence empty (its `ensures`), and the outcome of every subsequent `put`
/// depends only on the bounds, the capacity and the entries stored so far.
pub proof fn lemma_reset_behaves_like_fresh(
    nrow: int,
    ncol: int,
    cap: int,
    after_reset: Seq<(int, int, (int, int))>,
    fresh: Seq<(int, int, (int, int))>,
    reqs: Seq<(int, int, (int, int))>,
)
    requires
        after_reset == Seq::<(int, int, (int, int))>::empty(),
        fresh == Seq::<(int, int, (int, int))>::empty(),
    ensures
        apply_puts(nrow, ncol, cap, after_reset, reqs) == apply_puts(nrow, ncol, cap, fresh, reqs),
{
}

// ---------------------------------------------------------------------------
// Duplicate summation
// ---------------------------------------------------------------------------

/// Duplicates fold by summation: appending two contributions `a` then `b` at
/// the cell `(i, j)` materializes, at every cell, exactly as appending their
/// exact sum once.
pub proof fn lemma_duplicate_summation(
    s1: Seq<(int, int, (int, int))>,
    s2: Seq<(int, int, (int, int))>,
    i: int,
    j: int,
    a: (int, int),
    b: (int, int),
    r: int,
    c: int,
)
    ensures
        cell_sum(s1 + seq![(i, j, a), (i, j, b)] + s2, r, c) == cell_sum(
            s1 + seq![(i, j, radd(a, b))] + s2,
            r,
            c,
        ),
    decreases s2.len(),
{
    let twice = s1 + seq![(i, j, a), (i, j, b)];
    let once = s1 + seq![(i, j, radd(a, b))];
    if s2.len() == 0 {
        assert(twice + s2 =~= twice);
        assert(once + s2 =~= once);
        assert(twice.drop_last() =~= s1 + seq![(i, j, a)]);
        assert(twice.last() == (i, j, b));
        assert((s1 + seq![(i, j, a)]).drop_last() =~= s1);
        assert((s1 + seq![(i, j, a)]).last() == (i, j, a));
        assert(once.drop_last() =~= s1);
        assert(once.last() == (i, j, radd(a, b)));
        if i == r && j == c {
            assert(cell_sum(s1 + seq![(i, j, a)], r, c) == radd(cell_sum(s1, r, c), a));
            assert(cell_sum(twice, r, c) == radd(radd(cell_sum(s1, r, c), a), b));
            assert(cell_sum(once, r, c) == radd(cell_sum(s1, r, c), radd(a, b)));
            lemma_radd_assoc(cell_sum(s1, r, c), a, b);
        } else {
            assert(cell_sum(s1 + seq![(i, j, a)], r, c) == cell_sum(s1, r, c));
            assert(cell_sum(twice, r, c) == cell_sum(s1, r, c));
            assert(cell_sum(once, r, c) == cell_sum(s1, r, c));
        }
    } else {
        let s2p = s2.drop_last();
        let e = s2.last();
        assert((twice + s2).drop_last() =~= twice + s2p);
        assert((twice + s2).last() == e);
        assert((once + s2).drop_last() =~= once + s2p);
        assert((once + s2).last() == e);
        lemma_duplicate_summation(s1, s2p, i, j, a, b, r, c);
        if e.0 == r && e.1 == c {
            assert(cell_sum(twice + s2, r, c) == radd(cell_sum(twice + s2p, r, c), e.2));
            assert(cell_sum(once + s2, r, c) == radd(cell_sum(once + s2p, r, c), e.2));
        } else {
            assert(cell_sum(twice + s2, r, c) == cell_sum(twice + s2p, r, c));
            assert(cell_sum(once + s2, r, c) == cell_sum(once + s2p, r, c));
        }
    }
}

// ---------------------------------------------------------------------------
// Windowed materialization
// ---------------------------------------------------------------------------

/// A smaller window equals the leading sub-block of a larger one: the value
/// materialized at a cell is `cell_sum` of the stored triples at that cell,
/// whatever the window, so two materializations agree wherever both are
/// defined.
pub proof fn lemma_window_leading_subblock(
    s: Seq<(int, int, (int, int))>,
    small: Matrix,
    big: Matrix,
)
    requires
        small.nrow <= big.nrow,
        small.ncol <= big.ncol,
        forall|i: int, j: int|
            0 <= i < small.nrow && 0 <= j < small.ncol ==> (#[trigger] small.at(i, j)) == cell_sum(
                s,
                i,
                j,
            ),
        forall|i: int, j: int|
            0 <= i < big.nrow && 0 <= j < big.ncol ==> (#[trigger] big.at(i, j)) == cell_sum(
                s,
                i,
                j,
            ),
    ensures
        forall|i: int, j: int|
            0 <= i < small.nrow && 0 <= j < small.ncol ==> (#[trigger] small.at(i, j)) == big.at(
                i,
                j,
            ),
{
}

// ---------------------------------------------------------------------------
// Triangular multiplication mirrors the missing triangle
// ---------------------------------------------------------------------------

/// The direct contribution of the triple `e` to component `k`: `e` adds
/// `e.2 * u[e.1]` to component `e.0`.
pub open spec fn apply_direct(
    acc: (int, int),
    e: (int, int, (int, int)),
    u: Seq<(int, int)>,
    k: int,
) -> (int, int) {
    if e.0 == k {
        radd(acc, rmul(e.2, u[e.1]))
    } else {
        acc
    }
}

/// The mirrored contribution of the off-diagonal triple `e` to component
/// `k`: `e` also adds `e.2 * u[e.0]` to component `e.1`.
pub open spec fn apply_mirror(
    acc: (int, int),
    e: (int, int, (int, int)),
    u: Seq<(int, int)>,
    k: int,
) -> (int, int) {
    if e.0 != e.1 && e.1 == k {
        radd(acc, rmul(e.2, u[e.0]))
    } else {
        acc
    }
}

/// The mirrored copies of the off-diagonal triples of `s`, in order.
pub open spec fn mirrored(s: Seq<(int, int, (int, int))>) -> Seq<(int, int, (int, int))>
    decreases s.len(),
{
    if s.len() == 0 {
        Seq::<(int, int, (int, int))>::empty()
    } else {
        let e = s.last();
        mirrored(s.drop_last()) + (if e.0 != e.1 {
            seq![(e.1, e.0, e.2)]
        } else {
            Seq::<(int, int, (int, int))>::empty()
        })
    }
}

/// Two direct contributions to the same component commute.
proof fn lemma_apply_direct_comm(
    z: (int, int),
    e: (int, int, (int, int)),
    f: (int, int, (int, int)),
    u: Seq<(int, int)>,
    k: int,
)
    ensures
        apply_direct(apply_direct(z, e, u, k), f, u, k) == apply_direct(
            apply_direct(z, f, u, k),
            e,
            u,
            k,
        ),
{
    if e.0 == k && f.0 == k {
        let te = rmul(e.2, u[e.1]);
        let tf = rmul(f.2, u[f.1]);
        lemma_radd_assoc(z, te, tf);
        lemma_radd_comm(te, tf);
        lemma_radd_assoc(z, tf, te);
    }
}

/// In plain mode, a triple inserted in the middle of the sequence
/// contributes exactly its direct term, wherever it stands.
proof fn lemma_mv_row_insert(
    xs: Seq<(int, int, (int, int))>,
    e: (int, int, (int, int)),
    ys: Seq<(int, int, (int, int))>,
    u: Seq<(int, int)>,
    k: int,
)
    ensures
        mv_row(xs.push(e) + ys, u, false, k) == apply_direct(mv_row(xs + ys, u, false, k), e, u, k),
    decreases ys.len(),
{
    if ys.len() == 0 {
        assert(xs.push(e) + ys =~= xs.push(e));
        assert(xs + ys =~= xs);
        assert(xs.push(e).drop_last() =~= xs);
        assert(xs.push(e).last() == e);
    } else {
        let ys0 = ys.drop_last();
        let f = ys.last();
        assert((xs.push(e) + ys).drop_last() =~= xs.push(e) + ys0);
        assert((xs.push(e) + ys).last() == f);
        assert((xs + ys).drop_last() =~= xs + ys0);
        assert((xs + ys).last() == f);
        lemma_mv_row_insert(xs, e, ys0, u, k);
        lemma_apply_direct_comm(mv_row(xs + ys0, u, false, k), e, f, u, k);
    }
}

/// Triangular multiplication mirrors the missing triangle exactly: for every
/// component, the product of a one-triangle store in `triangular` mode
/// equals the product, in plain mode, of the store extended by the mirrored
/// copies of its off-diagonal triples.
pub proof fn lemma_triangular_mirror(s: Seq<(int, int, (int, int))>, u: Seq<(int, int)>, k: int)
    ensures
        mv_row(s, u, true, k) == mv_row(s + mirrored(s), u, false, k),
    decreases s.len(),
{
    if s.len() == 0 {
        assert(s + mirrored(s) =~= s);
    } else {
        let s0 = s.drop_last();
        let e = s.last();
        lemma_triangular_mirror(s0, u, k);
        assert(mv_row(s, u, true, k) == apply_mirror(
            apply_direct(mv_row(s0, u, true, k), e, u, k),
            e,
            u,
            k,
        ));
        if e.0 != e.1 {
            let me = (e.1, e.0, e.2);
            assert(s + mirrored(s) =~= (s0.push(e) + mirrored(s0)).push(me));
            let base = s0.push(e) + mirrored(s0);
            assert(base.push(me).drop_last() =~= base);
            assert(base.push(me).last() == me);
            assert(mv_row(base.push(me), u, false, k) == apply_direct(
                mv_row(base, u, false, k),
                me,
                u,
                k,
            ));
            lemma_mv_row_insert(s0, e, mirrored(s0), u, k);
            assert(apply_direct(mv_row(s0, u, true, k), me, u, k) == apply_mirror(
                mv_row(s0, u, true, k),
                e,
                u,
                k,
            ));
        } else {
            assert(mirrored(s) =~= mirrored(s0));
            assert(s + mirrored(s) =~= s0.push(e) + mirrored(s0));
            lemma_mv_row_insert(s0, e, mirrored(s0), u, k);
        }
    }
}

// ---------------------------------------------------------------------------
// Verification of an exact solution
// ---------------------------------------------------------------------------

/// The denominators of a product component are positive whenever the stored
/// values, and the components of `u` that the triples reach, are
/// well-formed.
pub proof fn lemma_mv_row_wf(
    s: Seq<(int, int, (int, int))>,
    u: Seq<(int, int)>,
    tri: bool,
    k: int,
)
    requires
        forall|p: int| 0 <= p < s.len() ==> rat_wf((#[trigger] s[p]).2),
        forall|p: int| 0 <= p < u.len() ==> rat_wf(#[trigger] u[p]),
        forall|p: int| 0 <= p < s.len() ==> 0 <= (#[trigger] s[p]).1 < u.len(),
        tri ==> forall|p: int| 0 <= p < s.len() ==> 0 <= (#[trigger] s[p]).0 < u.len(),
    ensures
        rat_wf(mv_row(s, u, tri, k)),
    decreases s.len(),
{
    if s.len() > 0 {
        let s0 = s.drop_last();
        let e = s.last();
        lemma_mv_row_wf(s0, u, tri, k);
        let prev = mv_row(s0, u, tri, k);
        assert(rat_wf(rmul(e.2, u[e.1])) && rat_wf(radd(prev, rmul(e.2, u[e.1])))) by (
        nonlinear_arith)
            requires
                prev.1 > 0,
                e.2.1 > 0,
                u[e.1].1 > 0,
        ;
        if tri && e.0 != e.1 && e.1 == k {
            let direct = apply_direct(prev, e, u, k);
            assert(rat_wf(direct));
            assert(rat_wf(rmul(e.2, u[e.0])) && rat_wf(radd(direct, rmul(e.2, u[e.0])))) by (
            nonlinear_arith)
                requires
                    direct.1 > 0,
                    e.2.1 > 0,
                    u[e.0].1 > 0,
            ;
        }
    }
}

/// The scan for the largest absolute value of components that are all the
/// value zero yields the zero pair itself.
proof fn lemma_max_abs_fold_zero(s: Seq<(int, int)>)
    requires
        forall|p: int| 0 <= p < s.len() ==> (#[trigger] s[p]).0 == 0 && s[p].1 > 0,
    ensures
        max_abs_fold(s) == rzero(),
    decreases s.len(),
{
    if s.len() > 0 {
        lemma_max_abs_fold_zero(s.drop_last());
        assert(!rlt(rzero(), (0int, s.last().1)));
    }
}

/// On an exact solution the residual vanishes: when every component of
/// `A x` equals, as a rational value, the matching component of `rhs`, the
/// largest residual magnitude is the value zero, and so is the relative
/// error that `VerifyLinSys` reports.
pub proof fn lemma_verify_exact_solution(trip: SparseTriplet, x: Vector, rhs: Vector, tri: bool)
    requires
        trip.wf(),
        x.wf(),
        rhs.wf(),
        x.dim_spec() == trip.ncol,
        rhs.dim_spec() == trip.nrow,
        tri ==> trip.nrow == trip.ncol,
        forall|k: int|
            0 <= k < trip.nrow ==> req(
                mv_row(trip.entries(), x.pairs(), tri, k),
                #[trigger] rhs.pairs()[k],
            ),
    ensures
        req(
            max_abs_fold(
                diff_pairs(
                    ax_pairs(trip.entries(), x.pairs(), tri, trip.nrow as int),
                    rhs.pairs(),
                ),
            ),
            rzero(),
        ),
        req(
            rdiv(
                max_abs_fold(
                    diff_pairs(
                        ax_pairs(trip.entries(), x.pairs(), tri, trip.nrow as int),
                        rhs.pairs(),
                    ),
                ),
                radd(max_abs_fold(pairs_of(trip.vals@)), (1int, 1int)),
            ),
            rzero(),
        ),
{
    let s = trip.entries();
    let up = x.pairs();
    let ax = ax_pairs(s, up, tri, trip.nrow as int);
    let dif = diff_pairs(ax, rhs.pairs());
    assert forall|k: int| 0 <= k < dif.len() implies (#[trigger] dif[k]).0 == 0 && dif[k].1
        > 0 by {
        assert(forall|p: int| 0 <= p < s.len() ==> rat_wf((#[trigger] s[p]).2));
        assert(forall|p: int| 0 <= p < up.len() ==> rat_wf(#[trigger] up[p]));
        assert(forall|p: int| 0 <= p < s.len() ==> 0 <= (#[trigger] s[p]).1 < up.len());
        if tri {
            assert(forall|p: int| 0 <= p < s.len() ==> 0 <= (#[trigger] s[p]).0 < up.len());
        }
        lemma_mv_row_wf(s, up, tri, k);
        let akk = ax[k];
        let bkk = rhs.pairs()[k];
        assert(rat_wf(bkk));
        assert(akk.0 * bkk.1 == bkk.0 * akk.1);
        assert(dif[k] == rsub(akk, bkk));
        assert(rat_wf(rsub(akk, bkk))) by (nonlinear_arith)
            requires
                akk.1 > 0,
                bkk.1 > 0,
        ;
    }
    lemma_max_abs_fold_zero(dif);
    let m = max_abs_fold(pairs_of(trip.vals@));
    assert(forall|p: int| 0 <= p < trip.vals@.len() ==> rat_wf(#[trigger] pairs_of(trip.vals@)[p]));
    lemma_max_abs_fold_nonneg(pairs_of(trip.vals@));
    let q = radd(m, (1int, 1int));
    assert(q.0 == m.0 + m.1 && q.0 > 0 && q.1 == m.1);
    assert(rdiv(rzero(), q) == (0int, q.0));
    assert(req((0int, q.0), rzero()));
}

} // verus!
