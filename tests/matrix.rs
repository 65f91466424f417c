use raytracer::fixed::{approx_eq, SCALE};
use raytracer::matrix::{self, MatrixError};
use raytracer::vector;

fn fx(v: f64) -> i64 {
    (v * SCALE as f64).round() as i64
}

fn rows(values: &[&[f64]]) -> Vec<Vec<i64>> {
    values.iter().map(|r| r.iter().map(|v| fx(*v)).collect()).collect()
}

#[test]
fn new_matrix() {
    let matrix = matrix::new(4, 4);

    for i in 0..matrix.rows() {
        for j in 0..matrix.columns() {
            assert!(approx_eq(matrix.get(i, j), fx(0.0)));
        }
    }
}

#[test]
fn new_matrix_from_vectors() {
    let matrix = matrix::from_vectors(vec![
        vec![fx(1.0), fx(2.0), fx(3.0), fx(4.0)],
        vec![fx(5.0), fx(6.0), fx(7.0), fx(8.0)],
        vec![fx(9.0), fx(8.0), fx(7.0), fx(6.0)],
        vec![fx(5.0), fx(4.0), fx(3.0), fx(2.0)],
    ])
    .unwrap();

    assert!(approx_eq(matrix.get(2, 2), fx(7.0)));
    assert!(approx_eq(matrix.get(3, 1), fx(4.0)));
    assert!(approx_eq(matrix.get(3, 3), fx(2.0)));
}

#[test]
#[should_panic]
fn new_matrix_from_non_square_vectors() {
    let matrix = matrix::from_vectors(vec![
        vec![fx(1.0), fx(2.0), fx(3.0)],
        vec![fx(4.0), fx(5.0), fx(6.0)],
        vec![fx(7.0), fx(8.0), fx(9.0), fx(10.0)],
    ])
    .unwrap();
    assert!(matrix.rows() == matrix.columns());
}

#[test]
fn matrix_assignment_by_index() {
    let mut matrix = matrix::new(4, 4);
    for i in 0..matrix.rows() {
        for j in 0..matrix.columns() {
            matrix.set(i, j, fx((i + j) as f64));
        }
    }

    for i in 0..matrix.rows() {
        for j in 0..matrix.columns() {
            assert!(approx_eq(matrix.get(i, j), fx((i + j) as f64)));
        }
    }
}

#[test]
fn matrices_of_differing_size() {
    let mut matrix_small = matrix::new(2, 2);
    let mut matrix_medium = matrix::new(3, 3);

    matrix_small.set_row(0, vec![fx(-3.0), fx(5.0)]);
    matrix_small.set_row(1, vec![fx(1.0), fx(-2.0)]);

    matrix_medium.set_row(0, vec![fx(-3.0), fx(5.0), fx(0.0)]);
    matrix_medium.set_row(1, vec![fx(1.0), fx(-2.0), fx(-7.0)]);
    matrix_medium.set_row(2, vec![fx(0.0), fx(1.0), fx(1.0)]);

    assert!(approx_eq(matrix_small.get(0, 0), fx(-3.0)));
    assert!(approx_eq(matrix_small.get(0, 1), fx(5.0)));
    assert!(approx_eq(matrix_small.get(1, 0), fx(1.0)));
    assert!(approx_eq(matrix_small.get(1, 1), fx(-2.0)));

    assert!(approx_eq(matrix_medium.get(0, 0), fx(-3.0)));
    assert!(approx_eq(matrix_medium.get(1, 1), fx(-2.0)));
    assert!(approx_eq(matrix_medium.get(2, 2), fx(1.0)));
}

#[test]
fn matrix_equality() {
    let mut matrix1 = matrix::new(2, 2);
    let mut matrix2 = matrix::new(2, 2);
    let matrix3 = matrix::new(3, 3);

    matrix1.set(0, 0, fx(1.7));
    matrix1.set(1, 1, fx(-3.1));
    matrix2.set(0, 0, fx(1.7));
    matrix2.set(1, 1, fx(-3.1));

    assert_eq!(matrix1, matrix2);

    matrix1.set(0, 1, fx(2.0));

    assert_ne!(matrix1, matrix2);
    assert_ne!(matrix1, matrix3);
}

#[test]
fn matrix_multiplication() {
    let mut matrix1 = matrix::new(4, 4);
    let mut matrix2 = matrix::new(4, 4);

    matrix1.set_row(0, vec![fx(1.0), fx(2.0), fx(3.0), fx(4.0)]);
    matrix1.set_row(1, vec![fx(5.0), fx(6.0), fx(7.0), fx(8.0)]);
    matrix1.set_row(2, vec![fx(9.0), fx(8.0), fx(7.0), fx(6.0)]);
    matrix1.set_row(3, vec![fx(5.0), fx(4.0), fx(3.0), fx(2.0)]);

    matrix2.set_row(0, vec![fx(-2.0), fx(1.0), fx(2.0), fx(3.0)]);
    matrix2.set_row(1, vec![fx(3.0), fx(2.0), fx(1.0), fx(-1.0)]);
    matrix2.set_row(2, vec![fx(4.0), fx(3.0), fx(6.0), fx(5.0)]);
    matrix2.set_row(3, vec![fx(1.0), fx(2.0), fx(7.0), fx(8.0)]);

    let matrix3 = matrix1.mul(&matrix2).unwrap();

    assert_eq!(matrix3.row(0), &[fx(20.0), fx(22.0), fx(50.0), fx(48.0)][..]);
    assert_eq!(matrix3.row(1), &[fx(44.0), fx(54.0), fx(114.0), fx(108.0)][..]);
    assert_eq!(matrix3.row(2), &[fx(40.0), fx(58.0), fx(110.0), fx(102.0)][..]);
    assert_eq!(matrix3.row(3), &[fx(16.0), fx(26.0), fx(46.0), fx(42.0)][..]);
}

#[test]
fn matrix_vector_multiplication() {
    let mut matrix1 = matrix::new(4, 4);
    let p1 = vector::build_point(fx(1.0), fx(2.0), fx(3.0));

    matrix1.set_row(0, vec![fx(1.0), fx(2.0), fx(3.0), fx(4.0)]);
    matrix1.set_row(1, vec![fx(2.0), fx(4.0), fx(4.0), fx(2.0)]);
    matrix1.set_row(2, vec![fx(8.0), fx(6.0), fx(4.0), fx(1.0)]);
    matrix1.set_row(3, vec![fx(0.0), fx(0.0), fx(0.0), fx(1.0)]);

    let p2 = matrix1.mul_tuple(p1).unwrap();

    assert_eq!(p2, vector::build_point(fx(18.0), fx(24.0), fx(33.0)));
    assert!(p2.is_point());
}

#[test]
fn identity_matrix_multiplication() {
    let m1 = matrix::from_vectors(rows(&[
        &[0.0, 1.0, 2.0, 4.0],
        &[1.0, 2.0, 4.0, 8.0],
        &[2.0, 4.0, 8.0, 16.0],
        &[4.0, 8.0, 16.0, 32.0],
    ]))
    .unwrap();
    let m2 = matrix::from_vectors(rows(&[
        &[0.0, 1.0, 2.0, 4.0],
        &[1.3, 2.1, 4.4, 8.7],
        &[2.0, 7.1, 8.0, 16.0],
        &[4.0, 8.0, 16.0, 32.0],
    ]))
    .unwrap();

    let m3 = m1.clone().mul(&matrix::identity()).unwrap();
    let m4 = m2.clone().mul(&matrix::identity()).unwrap();

    assert_eq!(m1, m3);
    assert_eq!(m2, m4);
}

#[test]
fn identity_on_the_left_keeps_matrix() {
    let m = matrix::from_vectors(rows(&[
        &[1.5, -2.25, 0.0, 7.0],
        &[0.001, 2.0, -4.0, 8.0],
        &[3.0, 0.5, 1.0, -16.0],
        &[4.0, 8.0, 0.125, 32.0],
    ]))
    .unwrap();
    let left = matrix::identity().mul(&m).unwrap();
    let right = m.mul(&matrix::identity()).unwrap();
    for i in 0..4 {
        for j in 0..4 {
            assert_eq!(left.get(i, j), m.get(i, j));
            assert_eq!(right.get(i, j), m.get(i, j));
        }
    }
}

#[test]
fn identity_is_unit_diagonal() {
    let id = matrix::identity();
    assert_eq!((id.rows(), id.columns()), (4, 4));
    for i in 0..4 {
        for j in 0..4 {
            assert_eq!(id.get(i, j), if i == j { SCALE } else { 0 });
        }
    }
}

#[test]
fn matrix_product_scenario() {
    let m1 = matrix::from_vectors(rows(&[
        &[1.0, 2.0, 3.0, 4.0],
        &[5.0, 6.0, 7.0, 8.0],
        &[9.0, 8.0, 7.0, 6.0],
        &[5.0, 4.0, 3.0, 2.0],
    ]))
    .unwrap();
    let m2 = matrix::from_vectors(rows(&[
        &[-2.0, 1.0, 2.0, 3.0],
        &[3.0, 2.0, 1.0, -1.0],
        &[4.0, 3.0, 6.0, 5.0],
        &[1.0, 2.0, 7.0, 8.0],
    ]))
    .unwrap();
    let expected = matrix::from_vectors(rows(&[
        &[20.0, 22.0, 50.0, 48.0],
        &[44.0, 54.0, 114.0, 108.0],
        &[40.0, 58.0, 110.0, 102.0],
        &[16.0, 26.0, 46.0, 42.0],
    ]))
    .unwrap();
    assert_eq!(m1.mul(&m2).unwrap(), expected);
}

#[test]
fn rectangular_product_sums_over_inner_dimension() {
    let mut a = matrix::new(2, 3);
    a.set_row(0, vec![fx(1.0), fx(2.0), fx(3.0)]);
    a.set_row(1, vec![fx(4.0), fx(5.0), fx(6.0)]);
    let mut b = matrix::new(3, 2);
    b.set_row(0, vec![fx(7.0), fx(8.0)]);
    b.set_row(1, vec![fx(9.0), fx(10.0)]);
    b.set_row(2, vec![fx(11.0), fx(12.0)]);
    let p = a.mul(&b).unwrap();
    assert_eq!((p.rows(), p.columns()), (2, 2));
    assert_eq!(p.row(0), &[fx(58.0), fx(64.0)][..]);
    assert_eq!(p.row(1), &[fx(139.0), fx(154.0)][..]);
}

#[test]
fn product_with_mismatched_dimensions_is_refused() {
    let a = matrix::new(2, 3);
    let b = matrix::new(2, 3);
    assert_eq!(a.mul(&b).unwrap_err(), MatrixError::DimensionMismatch);
    assert_eq!(matrix::new(3, 3).mul_tuple(vector::build_vector(0, 0, 0)).unwrap_err(), MatrixError::DimensionMismatch);
}

#[test]
fn from_vectors_errors() {
    assert_eq!(matrix::from_vectors(vec![]).unwrap_err(), MatrixError::Empty);
    assert_eq!(
        matrix::from_vectors(vec![vec![1, 2], vec![3]]).unwrap_err(),
        MatrixError::NotSquare
    );
    assert_eq!(matrix::from_vectors(vec![vec![1, 2, 3]]).unwrap_err(), MatrixError::NotSquare);
}

#[test]
fn from_vectors_round_trip() {
    let data = rows(&[&[1.25, -2.5, 3.0], &[0.0, 0.1, -0.2], &[7.0, 8.0, 9.5]]);
    let m = matrix::from_vectors(data.clone()).unwrap();
    assert_eq!((m.rows(), m.columns()), (3, 3));
    for i in 0..3 {
        for j in 0..3 {
            assert_eq!(m.get(i, j), data[i][j]);
        }
    }
}

#[test]
fn associativity_on_whole_numbers() {
    let a = matrix::from_vectors(rows(&[&[1.0, 2.0], &[3.0, -4.0]])).unwrap();
    let b = matrix::from_vectors(rows(&[&[0.5, 1.0], &[-2.0, 3.0]])).unwrap();
    let c = matrix::from_vectors(rows(&[&[2.0, 0.0], &[1.0, -1.0]])).unwrap();
    let left = a.mul(&b).unwrap().mul(&c).unwrap();
    let right = a.mul(&b.mul(&c).unwrap()).unwrap();
    assert_eq!(left, right);
    assert_eq!(left.row(0), right.row(0));
    assert_eq!(left.row(1), right.row(1));
}

#[test]
fn product_rounds_toward_zero() {
    let mut a = matrix::new(1, 1);
    a.set(0, 0, 3);
    let mut b = matrix::new(1, 1);
    b.set(0, 0, SCALE / 2);
    assert_eq!(a.mul(&b).unwrap().get(0, 0), 1);
    a.set(0, 0, -3);
    assert_eq!(a.mul(&b).unwrap().get(0, 0), -1);
}

#[test]
fn matrix_times_vector_is_vector() {
    let mut m = matrix::identity();
    m.set_row(0, vec![fx(2.0), 0, 0, fx(5.0)]);
    let v = m.mul_tuple(vector::build_vector(fx(1.0), fx(2.0), fx(3.0))).unwrap();
    assert!(!v.is_point());
    assert_eq!(v, vector::build_vector(fx(2.0), fx(2.0), fx(3.0)));
    let p = m.mul_tuple(vector::build_point(fx(1.0), fx(2.0), fx(3.0))).unwrap();
    assert!(p.is_point());
    assert_eq!(p, vector::build_point(fx(7.0), fx(2.0), fx(3.0)));
}

#[test]
fn associativity_within_tolerance_under_rounding() {
    let third = fx(1.0) / 3;
    let a = matrix::from_vectors(vec![vec![third, fx(2.0)], vec![fx(-0.7), third]]).unwrap();
    let b = matrix::from_vectors(vec![vec![third, fx(0.1)], vec![fx(3.0), -third]]).unwrap();
    let c = matrix::from_vectors(vec![vec![fx(9.0), third], vec![fx(0.3), fx(-5.0)]]).unwrap();
    let left = a.mul(&b).unwrap().mul(&c).unwrap();
    let right = a.mul(&b.mul(&c).unwrap()).unwrap();
    assert_eq!(left, right);
}
