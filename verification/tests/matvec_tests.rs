use russell_sparse::error::Error;
use russell_sparse::rational::Rational;
use russell_sparse::triplet::SparseTriplet;
use russell_sparse::vector::Vector;

fn rat(num: i64, den: i64) -> Rational {
    Rational::new(num, den).unwrap()
}

fn vec_of(values: &[i64]) -> Vector {
    let mut data: Vec<Rational> = Vec::new();
    for v in values {
        data.push(Rational::from_int(*v));
    }
    Vector::from_vec(data)
}

#[test]
fn mat_vec_mul_plain_works() {
    // | 1 0 4 |   | 1 |   | 5 |
    // | 0 2 0 | * | 1 | = | 2 |
    // | 0 0 3 |   | 1 |   | 3 |
    let mut trip = SparseTriplet::new(3, 3, 4).unwrap();
    trip.put(0, 0, rat(1, 1)).unwrap();
    trip.put(0, 2, rat(4, 1)).unwrap();
    trip.put(1, 1, rat(2, 1)).unwrap();
    trip.put(2, 2, rat(3, 1)).unwrap();
    let u = vec_of(&[1, 1, 1]);
    let v = trip.mat_vec_mul(&u, false).unwrap();
    assert_eq!(v.dim(), 3);
    let expected: [i64; 3] = [5, 2, 3];
    for k in 0..3usize {
        assert!(v.get(k).unwrap().eq_value(&Rational::from_int(expected[k])));
    }
}

#[test]
fn mat_vec_mul_fails_on_wrong_dims() {
    let mut trip = SparseTriplet::new(2, 3, 2).unwrap();
    trip.put(0, 0, rat(1, 1)).unwrap();
    let u = vec_of(&[1, 1]);
    assert!(matches!(trip.mat_vec_mul(&u, false), Err(Error::DimensionMismatch)));
    // mirroring demands a square matrix
    let u3 = vec_of(&[1, 1, 1]);
    assert!(matches!(trip.mat_vec_mul(&u3, true), Err(Error::DimensionMismatch)));
}

#[test]
fn triangular_mirror_scenario() {
    // lower triangle of the symmetric tridiagonal [[2,-1,0],[-1,2,-1],[0,-1,2]]
    let mut lower = SparseTriplet::new(3, 3, 5).unwrap();
    lower.put(0, 0, rat(2, 1)).unwrap();
    lower.put(1, 0, rat(-1, 1)).unwrap();
    lower.put(1, 1, rat(2, 1)).unwrap();
    lower.put(2, 1, rat(-1, 1)).unwrap();
    lower.put(2, 2, rat(2, 1)).unwrap();

    // the same matrix stored with both triangles
    let mut full = SparseTriplet::new(3, 3, 7).unwrap();
    full.put(0, 0, rat(2, 1)).unwrap();
    full.put(0, 1, rat(-1, 1)).unwrap();
    full.put(1, 0, rat(-1, 1)).unwrap();
    full.put(1, 1, rat(2, 1)).unwrap();
    full.put(1, 2, rat(-1, 1)).unwrap();
    full.put(2, 1, rat(-1, 1)).unwrap();
    full.put(2, 2, rat(2, 1)).unwrap();

    let u = vec_of(&[5, 8, 7]);
    let from_lower = lower.mat_vec_mul(&u, true).unwrap();
    let from_full = full.mat_vec_mul(&u, false).unwrap();
    let expected: [i64; 3] = [2, 4, 6];
    for k in 0..3usize {
        let a = from_lower.get(k).unwrap();
        let b = from_full.get(k).unwrap();
        assert!(a.eq_value(&Rational::from_int(expected[k])));
        assert!(b.eq_value(&Rational::from_int(expected[k])));
        assert!(a.eq_value(&b));
    }
}

#[test]
fn mat_vec_mul_sums_duplicates_in_insertion_order() {
    let mut trip = SparseTriplet::new(1, 1, 3).unwrap();
    trip.put(0, 0, rat(1, 2)).unwrap();
    trip.put(0, 0, rat(1, 3)).unwrap();
    trip.put(0, 0, rat(1, 6)).unwrap();
    let u = vec_of(&[6]);
    let v = trip.mat_vec_mul(&u, false).unwrap();
    assert!(v.get(0).unwrap().eq_value(&Rational::from_int(6)));
}

#[test]
fn mat_vec_mul_reports_overflow() {
    let mut trip = SparseTriplet::new(1, 1, 1).unwrap();
    trip.put(0, 0, rat(1, 1 << 62)).unwrap();
    let mut data: Vec<Rational> = Vec::new();
    data.push(rat(1, 1 << 62));
    let u = Vector::from_vec(data);
    assert!(matches!(trip.mat_vec_mul(&u, false), Err(Error::Overflow)));
}
