use russell_sparse::error::Error;
use russell_sparse::matrix::Matrix;
use russell_sparse::rational::Rational;
use russell_sparse::triplet::SparseTriplet;

fn rat(num: i64, den: i64) -> Rational {
    Rational::new(num, den).unwrap()
}

#[test]
fn new_fails_on_wrong_dims() {
    assert_eq!(SparseTriplet::new(0, 3, 5).err(), Some(Error::InvalidDimension));
    assert_eq!(SparseTriplet::new(3, 0, 5).err(), Some(Error::InvalidDimension));
    assert_eq!(SparseTriplet::new(3, 3, 0).err(), Some(Error::InvalidDimension));
    assert_eq!(
        Error::InvalidDimension.message(),
        "nrow, ncol, and max must all be greater than zero"
    );
}

#[test]
fn sparse_triplet_new_works() {
    let trip = SparseTriplet::new(3, 3, 5).unwrap();
    assert_eq!(trip.dims(), (3, 3));
    assert_eq!(trip.count(), 0);
    assert_eq!(trip.capacity(), 5);
    assert_eq!(trip.symmetric(), false);
}

#[test]
fn put_fails_on_wrong_values() {
    let mut trip = SparseTriplet::new(1, 1, 1).unwrap();
    assert_eq!(trip.put(1, 0, rat(0, 1)), Err(Error::IndexOutOfBounds));
    assert_eq!(trip.put(0, 1, rat(0, 1)), Err(Error::IndexOutOfBounds));
    trip.put(0, 0, rat(0, 1)).unwrap(); // << all spots occupied
    assert_eq!(trip.put(0, 0, rat(0, 1)), Err(Error::CapacityExceeded));
    assert_eq!(Error::CapacityExceeded.message(), "max number of entries reached");
}

#[test]
fn put_works() {
    let mut trip = SparseTriplet::new(3, 3, 5).unwrap();
    trip.put(0, 0, rat(1, 1)).unwrap();
    assert_eq!(trip.count(), 1);
    trip.put(0, 1, rat(2, 1)).unwrap();
    assert_eq!(trip.count(), 2);
    trip.put(1, 0, rat(3, 1)).unwrap();
    assert_eq!(trip.count(), 3);
    trip.put(1, 1, rat(4, 1)).unwrap();
    assert_eq!(trip.count(), 4);
    trip.put(2, 2, rat(5, 1)).unwrap();
    assert_eq!(trip.count(), 5);
}

#[test]
fn dims_works() {
    let trip = SparseTriplet::new(3, 2, 1).unwrap();
    assert_eq!(trip.dims(), (3, 2));
}

#[test]
fn to_matrix_fails_on_wrong_dims() {
    let trip = SparseTriplet::new(1, 1, 1).unwrap();
    let mut a_2x1 = Matrix::new(2, 1);
    let mut a_1x2 = Matrix::new(1, 2);
    assert_eq!(trip.to_matrix(&mut a_2x1), Err(Error::DimensionMismatch));
    assert_eq!(trip.to_matrix(&mut a_1x2), Err(Error::DimensionMismatch));
}

#[test]
fn to_matrix_works() {
    let mut trip = SparseTriplet::new(3, 3, 5).unwrap();
    trip.put(0, 0, rat(1, 1)).unwrap();
    trip.put(0, 1, rat(2, 1)).unwrap();
    trip.put(1, 0, rat(3, 1)).unwrap();
    trip.put(1, 1, rat(4, 1)).unwrap();
    trip.put(2, 2, rat(5, 1)).unwrap();
    let mut a = Matrix::new(3, 3);
    trip.to_matrix(&mut a).unwrap();
    assert_eq!(a.get(0, 0).unwrap(), rat(1, 1));
    assert_eq!(a.get(0, 1).unwrap(), rat(2, 1));
    assert_eq!(a.get(1, 0).unwrap(), rat(3, 1));
    assert_eq!(a.get(1, 1).unwrap(), rat(4, 1));
    assert_eq!(a.get(2, 2).unwrap(), rat(5, 1));
    let mut b = Matrix::new(2, 1);
    trip.to_matrix(&mut b).unwrap();
    assert_eq!(b.get(0, 0).unwrap(), rat(1, 1));
    assert_eq!(b.get(1, 0).unwrap(), rat(3, 1));
}

#[test]
fn put_succeeds_capacity_times_then_fails() {
    let mut trip = SparseTriplet::new(2, 2, 4).unwrap();
    for k in 0..4usize {
        assert_eq!(trip.put(k / 2, k % 2, rat(1, 1)), Ok(()));
    }
    assert_eq!(trip.count(), 4);
    assert_eq!(trip.put(0, 0, rat(1, 1)), Err(Error::CapacityExceeded));
}

#[test]
fn reset_restores_fresh_behavior() {
    let mut trip = SparseTriplet::new(2, 2, 3).unwrap();
    trip.put(0, 0, rat(7, 2)).unwrap();
    trip.put(1, 1, rat(-3, 1)).unwrap();
    trip.reset();
    assert_eq!(trip.count(), 0);
    assert_eq!(trip.capacity(), 3);

    let mut fresh = SparseTriplet::new(2, 2, 3).unwrap();
    let puts: [(usize, usize, Rational); 3] = [
        (0, 1, rat(1, 2)),
        (0, 1, rat(1, 2)),
        (1, 0, rat(4, 1)),
    ];
    for (i, j, x) in puts.iter() {
        assert_eq!(trip.put(*i, *j, *x), Ok(()));
        assert_eq!(fresh.put(*i, *j, *x), Ok(()));
    }
    let mut a = Matrix::new(2, 2);
    let mut b = Matrix::new(2, 2);
    trip.to_matrix(&mut a).unwrap();
    fresh.to_matrix(&mut b).unwrap();
    for i in 0..2usize {
        for j in 0..2usize {
            assert_eq!(a.get(i, j).unwrap(), b.get(i, j).unwrap());
        }
    }
}

#[test]
fn duplicate_summation_scenario() {
    // putting (0,0,0.5) twice sums to the same dense value as (0,0,1.0) once
    let mut trip = SparseTriplet::new(4, 4, 7).unwrap();
    trip.put(0, 0, rat(1, 2)).unwrap();
    trip.put(0, 0, rat(1, 2)).unwrap();
    trip.put(0, 1, rat(2, 1)).unwrap();
    trip.put(1, 0, rat(3, 1)).unwrap();
    trip.put(1, 1, rat(4, 1)).unwrap();
    trip.put(2, 2, rat(5, 1)).unwrap();
    trip.put(3, 3, rat(6, 1)).unwrap();
    let mut a = Matrix::new(4, 4);
    trip.to_matrix(&mut a).unwrap();
    let expected: [[i64; 4]; 4] = [[1, 2, 0, 0], [3, 4, 0, 0], [0, 0, 5, 0], [0, 0, 0, 6]];
    for i in 0..4usize {
        for j in 0..4usize {
            let cell = a.get(i, j).unwrap();
            assert!(cell.eq_value(&Rational::from_int(expected[i][j])));
        }
    }
}

#[test]
fn windowed_materialization_scenario() {
    // the 3x3 window of the same store equals the leading 3x3 sub-block
    let mut trip = SparseTriplet::new(4, 4, 7).unwrap();
    trip.put(0, 0, rat(1, 2)).unwrap();
    trip.put(0, 0, rat(1, 2)).unwrap();
    trip.put(0, 1, rat(2, 1)).unwrap();
    trip.put(1, 0, rat(3, 1)).unwrap();
    trip.put(1, 1, rat(4, 1)).unwrap();
    trip.put(2, 2, rat(5, 1)).unwrap();
    trip.put(3, 3, rat(6, 1)).unwrap();
    let mut small = Matrix::new(3, 3);
    trip.to_matrix(&mut small).unwrap();
    let expected: [[i64; 3]; 3] = [[1, 2, 0], [3, 4, 0], [0, 0, 5]];
    for i in 0..3usize {
        for j in 0..3usize {
            let cell = small.get(i, j).unwrap();
            assert!(cell.eq_value(&Rational::from_int(expected[i][j])));
        }
    }
    let mut full = Matrix::new(4, 4);
    trip.to_matrix(&mut full).unwrap();
    for i in 0..3usize {
        for j in 0..3usize {
            assert!(small.get(i, j).unwrap().eq_value(&full.get(i, j).unwrap()));
        }
    }
}

#[test]
fn put_rejects_out_of_bounds_indices() {
    let mut trip = SparseTriplet::new(5, 3, 4).unwrap();
    assert_eq!(trip.put(5, 0, rat(1, 1)), Err(Error::IndexOutOfBounds));
    assert_eq!(trip.put(0, 3, rat(1, 1)), Err(Error::IndexOutOfBounds));
    assert_eq!(trip.count(), 0);
    // the bounds are checked before the capacity, even on a full store
    let mut full = SparseTriplet::new(1, 1, 1).unwrap();
    full.put(0, 0, rat(1, 1)).unwrap();
    assert_eq!(full.put(1, 0, rat(1, 1)), Err(Error::IndexOutOfBounds));
    assert_eq!(full.put(0, 1, rat(1, 1)), Err(Error::IndexOutOfBounds));
}

#[test]
fn to_matrix_reports_overflow_and_keeps_target() {
    let big = rat(1, 1 << 62);
    let mut trip = SparseTriplet::new(1, 1, 2).unwrap();
    trip.put(0, 0, big).unwrap();
    trip.put(0, 0, big).unwrap();
    let mut a = Matrix::new(1, 1);
    assert_eq!(trip.to_matrix(&mut a), Err(Error::Overflow));
    assert_eq!(a.get(0, 0).unwrap(), Rational::zero());
}

#[test]
fn set_symmetric_records_the_flag() {
    let mut trip = SparseTriplet::new(3, 3, 2).unwrap();
    assert!(!trip.symmetric());
    trip.set_symmetric(true);
    assert!(trip.symmetric());
    trip.put(1, 0, rat(2, 1)).unwrap();
    assert!(trip.symmetric());
    assert_eq!(trip.row_indices().as_slice(), &[1usize]);
    assert_eq!(trip.col_indices().as_slice(), &[0usize]);
    assert_eq!(trip.values().len(), 1);
}
