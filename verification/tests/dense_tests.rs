use russell_sparse::error::Error;
use russell_sparse::matrix::Matrix;
use russell_sparse::rational::Rational;
use russell_sparse::vector::Vector;

fn rat(num: i64, den: i64) -> Rational {
    Rational::new(num, den).unwrap()
}

#[test]
fn matrix_starts_zero_and_mutates_explicitly() {
    let mut a = Matrix::new(2, 3);
    assert_eq!(a.dims(), (2, 3));
    assert_eq!(a.get(1, 2).unwrap(), Rational::zero());
    assert_eq!(a.get(2, 0), Err(Error::IndexOutOfBounds));
    a.set(0, 1, rat(5, 2)).unwrap();
    assert_eq!(a.get(0, 1).unwrap(), rat(5, 2));
    assert_eq!(a.get(0, 0).unwrap(), Rational::zero());
    a.add_into(0, 1, rat(1, 2)).unwrap();
    assert!(a.get(0, 1).unwrap().eq_value(&Rational::from_int(3)));
    assert_eq!(a.set(0, 3, rat(1, 1)), Err(Error::IndexOutOfBounds));
    a.fill(rat(-1, 4));
    assert_eq!(a.get(1, 2).unwrap(), rat(-1, 4));
    assert_eq!(a.get(0, 0).unwrap(), rat(-1, 4));
}

#[test]
fn vector_starts_zero_and_mutates_explicitly() {
    let mut v = Vector::new(3);
    assert_eq!(v.dim(), 3);
    assert_eq!(v.get(2).unwrap(), Rational::zero());
    assert_eq!(v.get(3), Err(Error::IndexOutOfBounds));
    v.set(1, rat(7, 3)).unwrap();
    assert_eq!(v.get(1).unwrap(), rat(7, 3));
    v.add_into(1, rat(2, 3)).unwrap();
    assert!(v.get(1).unwrap().eq_value(&Rational::from_int(3)));
    v.fill(rat(1, 2));
    assert_eq!(v.get(0).unwrap(), rat(1, 2));
    assert_eq!(v.get(2).unwrap(), rat(1, 2));
}

#[test]
fn vector_max_abs_keeps_first_occurrence() {
    let mut data: Vec<Rational> = Vec::new();
    data.push(rat(-3, 2));
    data.push(rat(1, 1));
    data.push(rat(3, 2));
    data.push(rat(-1, 4));
    let v = Vector::from_vec(data);
    let m = v.max_abs().unwrap();
    // the first value of magnitude 3/2 wins, with its own representative
    assert_eq!(m, rat(3, 2));
    let empty = Vector::new(0);
    assert_eq!(empty.max_abs().unwrap(), Rational::zero());
}
