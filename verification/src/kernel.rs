use vstd::prelude::*;

use crate::error::Error;

verus! {

/// The matrix norms the external norm kernel can compute.
#[derive(Clone, Copy, Debug, PartialEq, Eq, Structural)]
pub enum Norm {
    /// Largest column sum of absolute values.
    One,
    /// Largest row sum of absolute values.
    Inf,
    /// Square root of the sum of squares (same kernel selector as `Fro`).
    Euc,
    /// Frobenius norm.
    Fro,
    /// Largest absolute value among the entries.
    Max,
}

/// The single-character selector that the external norm kernel expects for
/// `kind`, as its byte value: `'1'` (49) for the one-norm, `'I'` (73) for
/// the infinity-norm, `'F'` (70) for the Euclidean/Frobenius norm, `'M'`
/// (77) for the maximum-absolute-entry norm.
pub fn norm_selector(kind: Norm) -> (r: u8)
    ensures
        kind == Norm::One ==> r == 49,
        kind == Norm::Inf ==> r == 73,
        kind == Norm::Euc || kind == Norm::Fro ==> r == 70,
        kind == Norm::Max ==> r == 77,
{
    match kind {
        Norm::One => 49,
        Norm::Inf => 73,
        Norm::Euc | Norm::Fro => 70,
        Norm::Max => 77,
    }
}

/// The shape check that guards a call into the external symmetric
/// eigen-decomposition kernel: the matrix must be square of dimension at
/// least one, and the eigenvalue output must have matching length. The
/// kernel call itself is outside this crate.
pub fn mat_eigen_sym_check(l_dim: usize, nrow: usize, ncol: usize) -> (r: Result<(), Error>)
    ensures
        r is Ok <==> (nrow == ncol && nrow > 0 && l_dim == ncol),
        r == Err::<(), Error>(Error::DimensionMismatch) <==> (nrow != ncol || (nrow > 0 && l_dim
            != ncol)),
        r == Err::<(), Error>(Error::InvalidDimension) <==> (nrow == ncol && nrow == 0),
{
    if nrow != ncol {
        return Err(Error::DimensionMismatch);
    }
    if nrow == 0 {
        return Err(Error::InvalidDimension);
    }
    if l_dim != ncol {
        return Err(Error::DimensionMismatch);
    }
    Ok(())
}

} // verus!
