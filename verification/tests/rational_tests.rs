use russell_sparse::error::Error;
use russell_sparse::kernel::{mat_eigen_sym_check, norm_selector, Norm};
use russell_sparse::rational::Rational;

fn rat(num: i64, den: i64) -> Rational {
    Rational::new(num, den).unwrap()
}

#[test]
fn rational_new_normalizes_the_sign() {
    assert!(Rational::new(1, 0).is_none());
    let r = rat(3, -4);
    assert_eq!(r.num(), -3);
    assert_eq!(r.den(), 4);
    assert!(r.eq_value(&rat(-3, 4)));
}

#[test]
fn rational_arithmetic_is_exact() {
    let half = rat(1, 2);
    let third = rat(1, 3);
    let sum = half.checked_add(&third).unwrap();
    assert!(sum.eq_value(&rat(5, 6)));
    let diff = half.checked_sub(&third).unwrap();
    assert!(diff.eq_value(&rat(1, 6)));
    let prod = half.checked_mul(&third).unwrap();
    assert!(prod.eq_value(&rat(1, 6)));
    let quot = half.checked_div(&third).unwrap();
    assert!(quot.eq_value(&rat(3, 2)));
    let neg = rat(-7, 2).checked_abs().unwrap();
    assert!(neg.eq_value(&rat(7, 2)));
}

#[test]
fn rational_ops_report_overflow() {
    let tiny = rat(1, 1 << 62);
    assert!(tiny.checked_add(&tiny).is_none());
    assert!(tiny.checked_mul(&tiny).is_none());
    assert!(rat(1, 1).checked_div(&Rational::zero()).is_none());
    assert!(rat(i64::MIN, 1).checked_abs().is_none());
}

#[test]
fn error_messages_are_stable() {
    assert_eq!(
        Error::InvalidDimension.message(),
        "nrow, ncol, and max must all be greater than zero"
    );
    assert_eq!(
        Error::IndexOutOfBounds.message(),
        "index must be smaller than the declared dimension"
    );
    assert_eq!(Error::CapacityExceeded.message(), "max number of entries reached");
    assert_eq!(
        Error::DimensionMismatch.message(),
        "dimensions are incompatible with this operation"
    );
    assert_eq!(
        Error::Overflow.message(),
        "coefficient left the exactly representable range"
    );
}

#[test]
fn norm_selector_matches_the_kernel_interface() {
    assert_eq!(norm_selector(Norm::One), b'1');
    assert_eq!(norm_selector(Norm::Inf), b'I');
    assert_eq!(norm_selector(Norm::Euc), b'F');
    assert_eq!(norm_selector(Norm::Fro), b'F');
    assert_eq!(norm_selector(Norm::Max), b'M');
}

#[test]
fn mat_eigen_sym_check_handles_errors() {
    assert_eq!(mat_eigen_sym_check(0, 0, 1), Err(Error::DimensionMismatch));
    assert_eq!(mat_eigen_sym_check(0, 0, 0), Err(Error::InvalidDimension));
    assert_eq!(mat_eigen_sym_check(0, 1, 1), Err(Error::DimensionMismatch));
    assert_eq!(mat_eigen_sym_check(3, 3, 3), Ok(()));
}
