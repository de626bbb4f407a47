use vstd::prelude::*;

verus! {

/// The failure values that the operations of this crate return.
///
/// Every failure is reported synchronously to the immediate caller; no
/// operation retries internally, and no operation leaves a partially
/// mutated output behind when it fails.
#[derive(Clone, Copy, Debug, PartialEq, Eq, Structural)]
pub enum Error {
    /// A zero size was given when constructing a store or container.
    InvalidDimension,
    /// A row or column index lies beyond the declared bounds.
    IndexOutOfBounds,
    /// The triplet store already holds `capacity` entries.
    CapacityExceeded,
    /// A vector or matrix shape disagrees with what the operation expects.
    DimensionMismatch,
    /// An exact coefficient left the representable range.
    Overflow,
}

impl Error {
    /// The short, stable message that describes this failure.
    pub open spec fn message_spec(self) -> Seq<char> {
        match self {
            Error::InvalidDimension => "nrow, ncol, and max must all be greater than zero"@,
            Error::IndexOutOfBounds => "index must be smaller than the declared dimension"@,
            Error::CapacityExceeded => "max number of entries reached"@,
            Error::DimensionMismatch => "dimensions are incompatible with this operation"@,
            Error::Overflow => "coefficient left the exactly representable range"@,
        }
    }

    /// Returns the short, stable, human-readable message for this failure.
    pub fn message(&self) -> (r: &'static str)
        ensures
            r@ == self.message_spec(),
    {
        match self {
            Error::InvalidDimension => "nrow, ncol, and max must all be greater than zero",
            Error::IndexOutOfBounds => "index must be smaller than the declared dimension",
            Error::CapacityExceeded => "max number of entries reached",
            Error::DimensionMismatch => "dimensions are incompatible with this operation",
            Error::Overflow => "coefficient left the exactly representable range",
        }
    }
}

} // verus!
