use russell_sparse::error::Error;
use russell_sparse::rational::Rational;
use russell_sparse::triplet::SparseTriplet;
use russell_sparse::vector::Vector;
use russell_sparse::verify::VerifyLinSys;

fn rat(num: i64, den: i64) -> Rational {
    Rational::new(num, den).unwrap()
}

fn vec_of(values: &[i64]) -> Vector {
    let mut data: Vec<Rational> = Vec::new();
    for v in values {
        data.push(Rational::from_int(*v));
    }
    Vector::from_vec(data)
}

#[test]
fn verify_lin_sys_new_works() {
    // | 1  3 -2 |
    // | 3  5  6 |
    // | 2  4  3 |
    let mut trip = SparseTriplet::new(3, 3, 9).unwrap();
    trip.put(0, 0, rat(1, 1)).unwrap();
    trip.put(0, 1, rat(3, 1)).unwrap();
    trip.put(0, 2, rat(-2, 1)).unwrap();
    trip.put(1, 0, rat(3, 1)).unwrap();
    trip.put(1, 1, rat(5, 1)).unwrap();
    trip.put(1, 2, rat(6, 1)).unwrap();
    trip.put(2, 0, rat(2, 1)).unwrap();
    trip.put(2, 1, rat(4, 1)).unwrap();
    trip.put(2, 2, rat(3, 1)).unwrap();
    let x = vec_of(&[-15, 8, 2]);
    let rhs = vec_of(&[5, 7, 8]);
    let verify = VerifyLinSys::new(&trip, &x, &rhs, false).unwrap();
    assert!(verify.max_abs_a.eq_value(&Rational::from_int(6)));
    assert!(verify.max_abs_ax.eq_value(&Rational::from_int(8)));
    assert!(verify.max_abs_diff.eq_value(&Rational::from_int(0)));
    assert!(verify.relative_error.eq_value(&Rational::from_int(0)));
    assert!(verify.time_check > 0);
}

#[test]
fn verify_fails_on_wrong_dims() {
    let mut trip = SparseTriplet::new(2, 2, 1).unwrap();
    trip.put(0, 0, rat(1, 1)).unwrap();
    let x1 = vec_of(&[1]);
    let rhs2 = vec_of(&[1, 1]);
    assert!(matches!(
        VerifyLinSys::new(&trip, &x1, &rhs2, false),
        Err(Error::DimensionMismatch)
    ));
    let x2 = vec_of(&[1, 1]);
    let rhs1 = vec_of(&[1]);
    assert!(matches!(
        VerifyLinSys::new(&trip, &x2, &rhs1, false),
        Err(Error::DimensionMismatch)
    ));
}

#[test]
fn verify_reports_residual_of_inexact_solution() {
    // A = [[2]] , x = [3], rhs = [5]: A x = [6], residual 1, error 1/3
    let mut trip = SparseTriplet::new(1, 1, 1).unwrap();
    trip.put(0, 0, rat(2, 1)).unwrap();
    let x = vec_of(&[3]);
    let rhs = vec_of(&[5]);
    let verify = VerifyLinSys::new(&trip, &x, &rhs, false).unwrap();
    assert!(verify.max_abs_a.eq_value(&Rational::from_int(2)));
    assert!(verify.max_abs_ax.eq_value(&Rational::from_int(6)));
    assert!(verify.max_abs_diff.eq_value(&Rational::from_int(1)));
    assert!(verify.relative_error.eq_value(&rat(1, 3)));
}

#[test]
fn verify_handles_empty_store() {
    // no stored triples: A is all zero, max_abs_a = 0, error = |rhs| / 1
    let trip = SparseTriplet::new(1, 1, 1).unwrap();
    let x = vec_of(&[7]);
    let rhs = vec_of(&[4]);
    let verify = VerifyLinSys::new(&trip, &x, &rhs, false).unwrap();
    assert!(verify.max_abs_a.eq_value(&Rational::zero()));
    assert!(verify.max_abs_ax.eq_value(&Rational::zero()));
    assert!(verify.max_abs_diff.eq_value(&Rational::from_int(4)));
    assert!(verify.relative_error.eq_value(&Rational::from_int(4)));
}

#[test]
fn verify_honors_triangular_mode() {
    // lower triangle of [[2,-1],[-1,2]] with the exact solution of rhs=[0,3]
    let mut trip = SparseTriplet::new(2, 2, 3).unwrap();
    trip.put(0, 0, rat(2, 1)).unwrap();
    trip.put(1, 0, rat(-1, 1)).unwrap();
    trip.put(1, 1, rat(2, 1)).unwrap();
    let x = vec_of(&[1, 2]);
    let rhs = vec_of(&[0, 3]);
    let verify = VerifyLinSys::new(&trip, &x, &rhs, true).unwrap();
    assert!(verify.max_abs_diff.eq_value(&Rational::zero()));
    assert!(verify.relative_error.eq_value(&Rational::zero()));
}
