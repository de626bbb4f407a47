use vstd::prelude::*;

use crate::error::Error;

verus! {

// ---------------------------------------------------------------------------
// Mathematical model: a rational value is a pair (numerator, denominator) of
// unbounded integers with a positive denominator. The executable type below
// carries a representative of such a pair in `i64` fields; the spec functions
// here define the exact arithmetic that the executable operations implement.
// ---------------------------------------------------------------------------

/// Well-formedness of a model pair: the denominator is positive.
pub open spec fn rat_wf(a: (int, int)) -> bool {
    a.1 > 0
}

/// The two pairs denote the same rational value (cross multiplication).
pub open spec fn req(a: (int, int), b: (int, int)) -> bool {
    a.0 * b.1 == b.0 * a.1
}

/// `a <= b` as rational values; meaningful when both denominators are positive.
pub open spec fn rle(a: (int, int), b: (int, int)) -> bool {
    a.0 * b.1 <= b.0 * a.1
}

/// `a < b` as rational values; meaningful when both denominators are positive.
pub open spec fn rlt(a: (int, int), b: (int, int)) -> bool {
    a.0 * b.1 < b.0 * a.1
}

/// Exact sum of two pairs.
pub open spec fn radd(a: (int, int), b: (int, int)) -> (int, int) {
    (a.0 * b.1 + b.0 * a.1, a.1 * b.1)
}

/// Exact difference of two pairs.
pub open spec fn rsub(a: (int, int), b: (int, int)) -> (int, int) {
    (a.0 * b.1 - b.0 * a.1, a.1 * b.1)
}

/// Exact product of two pairs.
pub open spec fn rmul(a: (int, int), b: (int, int)) -> (int, int) {
    (a.0 * b.0, a.1 * b.1)
}

/// Exact quotient of two pairs, with the sign moved into the numerator so
/// that the denominator stays positive. Meaningful when `b.0 != 0`.
pub open spec fn rdiv(a: (int, int), b: (int, int)) -> (int, int) {
    if b.0 >= 0 {
        (a.0 * b.1, a.1 * b.0)
    } else {
        (-(a.0 * b.1), -(a.1 * b.0))
    }
}

/// Exact absolute value of a pair.
pub open spec fn rabs(a: (int, int)) -> (int, int) {
    (if a.0 < 0 { -a.0 } else { a.0 }, a.1)
}

/// The model pair of the rational value zero.
pub open spec fn rzero() -> (int, int) {
    (0int, 1int)
}

/// The pair can be carried by the executable representation: both components
/// fit in `i64` and the denominator is positive.
pub open spec fn fits(a: (int, int)) -> bool {
    &&& i64::MIN <= a.0 <= i64::MAX
    &&& 0 < a.1 <= i64::MAX
}

/// Sum is commutative on representatives.
pub proof fn lemma_radd_comm(a: (int, int), b: (int, int))
    by (nonlinear_arith)
    ensures
        radd(a, b) == radd(b, a),
{
}

/// Sum is associative on representatives.
pub proof fn lemma_radd_assoc(a: (int, int), b: (int, int), c: (int, int))
    ensures
        radd(radd(a, b), c) == radd(a, radd(b, c)),
{
    let a0: int = a.0;
    let a1: int = a.1;
    let b0: int = b.0;
    let b1: int = b.1;
    let c0: int = c.0;
    let c1: int = c.1;
    vstd::arithmetic::mul::lemma_mul_is_distributive_add_other_way(c1, a0 * b1, b0 * a1);
    vstd::arithmetic::mul::lemma_mul_is_associative(a0, b1, c1);
    vstd::arithmetic::mul::lemma_mul_is_associative(b0, a1, c1);
    vstd::arithmetic::mul::lemma_mul_is_commutative(a1, c1);
    vstd::arithmetic::mul::lemma_mul_is_associative(b0, c1, a1);
    vstd::arithmetic::mul::lemma_mul_is_commutative(a1, b1);
    vstd::arithmetic::mul::lemma_mul_is_associative(c0, b1, a1);
    vstd::arithmetic::mul::lemma_mul_is_distributive_add_other_way(a1, b0 * c1, c0 * b1);
    vstd::arithmetic::mul::lemma_mul_is_associative(a1, b1, c1);
    assert((a0 * b1 + b0 * a1) * c1 + c0 * (a1 * b1) == a0 * (b1 * c1) + (b0 * c1 + c0 * b1)
        * a1);
    assert((a1 * b1) * c1 == a1 * (b1 * c1));
}

/// Bound on the product of a value of magnitude at most `2^63` with a
/// positive `i64`: it stays within `2^126 - 2^63` in magnitude, so two such
/// products can be added inside `i128`.
proof fn lemma_prod_bound(x: int, y: int)
    by (nonlinear_arith)
    requires
        -0x8000_0000_0000_0000 <= x <= 0x8000_0000_0000_0000,
        0 < y <= i64::MAX,
    ensures
        -0x3fff_ffff_ffff_ffff_8000_0000_0000_0000 <= x * y
            <= 0x3fff_ffff_ffff_ffff_8000_0000_0000_0000,
{
}

/// Bound on the product of two values of magnitude at most `2^63`: it stays
/// within `2^126` in magnitude, inside the `i128` range.
proof fn lemma_num_prod_bound(x: int, y: int)
    by (nonlinear_arith)
    requires
        -0x8000_0000_0000_0000 <= x <= 0x8000_0000_0000_0000,
        -0x8000_0000_0000_0000 <= y <= 0x8000_0000_0000_0000,
    ensures
        -0x4000_0000_0000_0000_0000_0000_0000_0000 <= x * y
            <= 0x4000_0000_0000_0000_0000_0000_0000_0000,
{
}

/// Product of two positive `i64` denominators is positive.
proof fn lemma_den_pos(x: int, y: int)
    by (nonlinear_arith)
    requires
        0 < x,
        0 < y,
    ensures
        0 < x * y,
{
}

/// Sign of a product with a positive left factor follows the right factor.
proof fn lemma_sign_prod(x: int, y: int)
    by (nonlinear_arith)
    requires
        0 < x,
    ensures
        y > 0 ==> x * y > 0,
        y < 0 ==> x * y < 0,
        y != 0 ==> x * y != 0,
{
}

// ---------------------------------------------------------------------------
// Executable representation
// ---------------------------------------------------------------------------

/// An exact rational number: an `i64` numerator over a positive `i64`
/// denominator. Representatives are not reduced; two values with different
/// representatives may denote the same rational, which [`Rational::eq_value`]
/// decides exactly.
#[derive(Clone, Copy, Debug, PartialEq, Eq, Structural)]
pub struct Rational {
    pub num: i64,
    pub den: i64,
}

impl Rational {
    /// The denominator is positive.
    pub open spec fn wf(self) -> bool {
        self.den > 0
    }

    /// The model pair this value represents.
    pub open spec fn pair(self) -> (int, int) {
        (self.num as int, self.den as int)
    }

    /// Builds `num / den`. Returns `None` when `den` is zero, or when the
    /// sign normalization of a negative denominator cannot be represented.
    pub fn new(num: i64, den: i64) -> (r: Option<Rational>)
        ensures
            den > 0 ==> r == Some(Rational { num, den }),
            r is Some ==> r.unwrap().wf() && req(r.unwrap().pair(), (num as int, den as int)),
            r is None <==> (den == 0 || (den < 0 && (den == i64::MIN || num == i64::MIN))),
    {
        if den > 0 {
            Some(Rational { num, den })
        } else if den == 0 || den == i64::MIN || num == i64::MIN {
            None
        } else {
            let r = Rational { num: -num, den: -den };
            proof {
                assert(req(r.pair(), (num as int, den as int))) by (nonlinear_arith)
                    requires
                        r.num == -num && r.den == -den && den < 0,
                ;
            }
            Some(r)
        }
    }

    /// The rational with the given integer value.
    pub fn from_int(v: i64) -> (r: Rational)
        ensures
            r.pair() == (v as int, 1int),
            r.wf(),
    {
        Rational { num: v, den: 1 }
    }

    /// The rational value zero.
    pub fn zero() -> (r: Rational)
        ensures
            r.pair() == rzero(),
            r.wf(),
    {
        Rational { num: 0, den: 1 }
    }

    /// The numerator of this representative.
    pub fn num(&self) -> (r: i64)
        ensures
            r as int == self.pair().0,
    {
        self.num
    }

    /// The denominator of this representative.
    pub fn den(&self) -> (r: i64)
        ensures
            r as int == self.pair().1,
    {
        self.den
    }

    /// Decides whether `self` and `other` denote the same rational value.
    pub fn eq_value(&self, other: &Rational) -> (r: bool)
        requires
            self.wf(),
            other.wf(),
        ensures
            r == req(self.pair(), other.pair()),
    {
        proof {
            lemma_prod_bound(self.num as int, other.den as int);
            lemma_prod_bound(other.num as int, self.den as int);
        }
        (self.num as i128) * (other.den as i128) == (other.num as i128) * (self.den as i128)
    }

    /// Decides whether `|self| > |other|` as rational values.
    pub fn abs_gt(&self, other: &Rational) -> (r: bool)
        requires
            self.wf(),
            other.wf(),
        ensures
            r == rlt(rabs(other.pair()), rabs(self.pair())),
    {
        let sn: i128 = self.num as i128;
        let on: i128 = other.num as i128;
        let sa: i128 = if sn < 0 { -sn } else { sn };
        let oa: i128 = if on < 0 { -on } else { on };
        proof {
            lemma_prod_bound(sa as int, other.den as int);
            lemma_prod_bound(oa as int, self.den as int);
        }
        sa * (other.den as i128) > oa * (self.den as i128)
    }

    /// Exact sum; `None` exactly when the result representative leaves `i64`.
    pub fn checked_add(&self, other: &Rational) -> (r: Option<Rational>)
        requires
            self.wf(),
            other.wf(),
        ensures
            r is Some <==> fits(radd(self.pair(), other.pair())),
            r is Some ==> r.unwrap().pair() == radd(self.pair(), other.pair())
                && r.unwrap().wf(),
    {
        proof {
            lemma_prod_bound(self.num as int, other.den as int);
            lemma_prod_bound(other.num as int, self.den as int);
            lemma_prod_bound(self.den as int, other.den as int);
            lemma_den_pos(self.den as int, other.den as int);
        }
        let n: i128 = (self.num as i128) * (other.den as i128)
            + (other.num as i128) * (self.den as i128);
        let d: i128 = (self.den as i128) * (other.den as i128);
        if n >= i64::MIN as i128 && n <= i64::MAX as i128 && d <= i64::MAX as i128 {
            Some(Rational { num: n as i64, den: d as i64 })
        } else {
            None
        }
    }

    /// Exact difference; `None` exactly when the result leaves `i64`.
    pub fn checked_sub(&self, other: &Rational) -> (r: Option<Rational>)
        requires
            self.wf(),
            other.wf(),
        ensures
            r is Some <==> fits(rsub(self.pair(), other.pair())),
            r is Some ==> r.unwrap().pair() == rsub(self.pair(), other.pair())
                && r.unwrap().wf(),
    {
        proof {
            lemma_prod_bound(self.num as int, other.den as int);
            lemma_prod_bound(other.num as int, self.den as int);
            lemma_prod_bound(self.den as int, other.den as int);
            lemma_den_pos(self.den as int, other.den as int);
        }
        let n: i128 = (self.num as i128) * (other.den as i128)
            - (other.num as i128) * (self.den as i128);
        let d: i128 = (self.den as i128) * (other.den as i128);
        if n >= i64::MIN as i128 && n <= i64::MAX as i128 && d <= i64::MAX as i128 {
            Some(Rational { num: n as i64, den: d as i64 })
        } else {
            None
        }
    }

    /// Exact product; `None` exactly when the result leaves `i64`.
    pub fn checked_mul(&self, other: &Rational) -> (r: Option<Rational>)
        requires
            self.wf(),
            other.wf(),
        ensures
            r is Some <==> fits(rmul(self.pair(), other.pair())),
            r is Some ==> r.unwrap().pair() == rmul(self.pair(), other.pair())
                && r.unwrap().wf(),
    {
        proof {
            lemma_num_prod_bound(self.num as int, other.num as int);
            lemma_prod_bound(self.den as int, other.den as int);
            lemma_den_pos(self.den as int, other.den as int);
        }
        let n: i128 = (self.num as i128) * (other.num as i128);
        let d: i128 = (self.den as i128) * (other.den as i128);
        if n >= i64::MIN as i128 && n <= i64::MAX as i128 && d <= i64::MAX as i128 {
            Some(Rational { num: n as i64, den: d as i64 })
        } else {
            None
        }
    }

    /// Exact quotient; `None` exactly when the divisor is zero or the result
    /// leaves `i64`.
    pub fn checked_div(&self, other: &Rational) -> (r: Option<Rational>)
        requires
            self.wf(),
            other.wf(),
        ensures
            r is Some <==> (other.pair().0 != 0 && fits(rdiv(self.pair(), other.pair()))),
            r is Some ==> r.unwrap().pair() == rdiv(self.pair(), other.pair())
                && r.unwrap().wf(),
    {
        if other.num == 0 {
            return None;
        }
        proof {
            lemma_prod_bound(self.num as int, other.den as int);
            lemma_num_prod_bound(self.den as int, other.num as int);
            lemma_sign_prod(self.den as int, other.num as int);
        }
        let n: i128 = (self.num as i128) * (other.den as i128);
        let d: i128 = (self.den as i128) * (other.num as i128);
        let (n, d): (i128, i128) = if d < 0 { (-n, -d) } else { (n, d) };
        if n >= i64::MIN as i128 && n <= i64::MAX as i128 && d <= i64::MAX as i128 {
            Some(Rational { num: n as i64, den: d as i64 })
        } else {
            None
        }
    }

    /// Exact absolute value; `None` exactly when the result leaves `i64`.
    pub fn checked_abs(&self) -> (r: Option<Rational>)
        requires
            self.wf(),
        ensures
            r is Some <==> fits(rabs(self.pair())),
            r is Some ==> r.unwrap().pair() == rabs(self.pair()) && r.unwrap().wf(),
    {
        if self.num == i64::MIN {
            None
        } else if self.num < 0 {
            Some(Rational { num: -self.num, den: self.den })
        } else {
            Some(*self)
        }
    }
}

// ---------------------------------------------------------------------------
// Largest absolute value of a sequence of rational values
// ---------------------------------------------------------------------------

/// The model pairs of a sequence of rational values.
pub open spec fn pairs_of(s: Seq<Rational>) -> Seq<(int, int)> {
    s.map_values(|r: Rational| r.pair())
}

/// The largest absolute value among the pairs of `s`, scanned in order and
/// starting from zero; ties keep the earlier representative.
pub open spec fn max_abs_fold(s: Seq<(int, int)>) -> (int, int)
    decreases s.len(),
{
    if s.len() == 0 {
        rzero()
    } else {
        let prev = max_abs_fold(s.drop_last());
        if rlt(prev, rabs(s.last())) {
            rabs(s.last())
        } else {
            prev
        }
    }
}

/// Every new maximum reached by the scan of `s` is representable in `i64`.
pub open spec fn max_abs_fold_fits(s: Seq<(int, int)>) -> bool
    decreases s.len(),
{
    if s.len() == 0 {
        true
    } else {
        let prev = max_abs_fold(s.drop_last());
        max_abs_fold_fits(s.drop_last()) && (rlt(prev, rabs(s.last())) ==> fits(
            rabs(s.last()),
        ))
    }
}

/// The scan result is a non-negative value over a positive denominator.
pub proof fn lemma_max_abs_fold_nonneg(s: Seq<(int, int)>)
    requires
        forall|k: int| 0 <= k < s.len() ==> rat_wf(#[trigger] s[k]),
    ensures
        max_abs_fold(s).0 >= 0,
        max_abs_fold(s).1 > 0,
    decreases s.len(),
{
    if s.len() > 0 {
        lemma_max_abs_fold_nonneg(s.drop_last());
    }
}

/// Every element of `s` lies, in absolute value, at or below the scan result.
pub proof fn lemma_max_abs_fold_bounds(s: Seq<(int, int)>)
    requires
        forall|k: int| 0 <= k < s.len() ==> rat_wf(#[trigger] s[k]),
    ensures
        forall|k: int| 0 <= k < s.len() ==> rle(rabs(#[trigger] s[k]), max_abs_fold(s)),
    decreases s.len(),
{
    if s.len() > 0 {
        lemma_max_abs_fold_bounds(s.drop_last());
        lemma_max_abs_fold_nonneg(s.drop_last());
        assert forall|k: int| 0 <= k < s.len() implies rle(
            rabs(#[trigger] s[k]),
            max_abs_fold(s),
        ) by {
            let prev = max_abs_fold(s.drop_last());
            if k < s.len() - 1 {
                assert(s.drop_last()[k] == s[k]);
                assert(rle(rabs(s[k]), prev));
                if rlt(prev, rabs(s.last())) {
                    lemma_rle_rlt_trans(rabs(s[k]), prev, rabs(s.last()));
                }
            }
        }
    }
}

/// Transitivity of `<=` against `<` on well-formed pairs.
pub proof fn lemma_rle_rlt_trans(a: (int, int), b: (int, int), c: (int, int))
    by (nonlinear_arith)
    requires
        rat_wf(a),
        rat_wf(b),
        rat_wf(c),
        rle(a, b),
        rlt(b, c),
    ensures
        rle(a, c),
{
}

/// If the whole scan fits, so does the scan of every prefix.
pub proof fn lemma_max_abs_fold_fits_prefix(s: Seq<(int, int)>, k: int)
    requires
        max_abs_fold_fits(s),
        0 <= k <= s.len(),
    ensures
        max_abs_fold_fits(s.take(k)),
    decreases s.len(),
{
    if k == s.len() {
        assert(s.take(k) =~= s);
    } else {
        assert(s.take(k) =~= s.drop_last().take(k));
        lemma_max_abs_fold_fits_prefix(s.drop_last(), k);
    }
}

/// Scans the values for the one of largest absolute value, in order, keeping
/// the first occurrence on ties. Fails only when a new maximum cannot be
/// represented.
pub fn max_abs_values(v: &Vec<Rational>) -> (r: Result<Rational, Error>)
    requires
        forall|k: int| 0 <= k < v@.len() ==> (#[trigger] v@[k]).wf(),
    ensures
        r is Ok <==> max_abs_fold_fits(pairs_of(v@)),
        r is Ok ==> r.unwrap().pair() == max_abs_fold(pairs_of(v@)) && r.unwrap().wf(),
        r is Err ==> r == Err::<Rational, Error>(Error::Overflow),
{
    let ghost pairs = pairs_of(v@);
    let mut acc = Rational::zero();
    let mut p: usize = 0;
    while p < v.len()
        invariant
            0 <= p <= v@.len(),
            forall|k: int| 0 <= k < v@.len() ==> (#[trigger] v@[k]).wf(),
            pairs == pairs_of(v@),
            acc.wf(),
            acc.pair() == max_abs_fold(pairs.take(p as int)),
            max_abs_fold_fits(pairs.take(p as int)),
        decreases v@.len() - p,
    {
        proof {
            assert(forall|k: int|
                0 <= k < pairs.len() ==> rat_wf(#[trigger] pairs[k]) && pairs[k] == v@[k].pair());
            lemma_max_abs_fold_nonneg(pairs.take(p as int));
            assert(rabs(acc.pair()) == acc.pair());
            assert(pairs.take(p as int + 1).drop_last() =~= pairs.take(p as int));
            assert(pairs.take(p as int + 1).last() == v@[p as int].pair());
        }
        let x = v[p];
        if x.abs_gt(&acc) {
            match x.checked_abs() {
                Some(a) => {
                    acc = a;
                },
                None => {
                    proof {
                        assert(!max_abs_fold_fits(pairs.take(p as int + 1)));
                        if max_abs_fold_fits(pairs) {
                            lemma_max_abs_fold_fits_prefix(pairs, p as int + 1);
                        }
                    }
                    return Err(Error::Overflow);
                },
            }
        }
        p += 1;
    }
    proof {
        assert(pairs.take(v@.len() as int) =~= pairs);
    }
    Ok(acc)
}

} // verus!
