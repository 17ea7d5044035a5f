use frechet::fd::{common_dim, fd_normal_arr, fd_normal_nd, Error, Gaussian, Steps};
use frechet::matrix::Matrix;
use frechet::sqrtm::sqrtm_re;
use ndarray_linalg::error::LinalgError;
use std::cell::Cell;

fn identity(n: usize) -> Matrix<f64> {
    Matrix::symmetric_from_fn(n, |i, j| if i == j { 1.0 } else { 0.0 })
}

fn diagonal(values: &[f64]) -> Matrix<f64> {
    Matrix::symmetric_from_fn(values.len(), |i, j| if i == j { values[i] } else { 0.0 })
}

/// The diagonal of a matrix that is taken to be diagonal.
type Diagonal = Vec<f64>;

/// The product of two covariances that are taken to be diagonal.
fn product(x: &Gaussian<f64>, y: &Gaussian<f64>) -> Matrix<f64> {
    let n = x.dim();
    Matrix::symmetric_from_fn(n, |i, j| {
        if i == j {
            x.covariance().get(i, i) * y.covariance().get(i, i)
        } else {
            0.0
        }
    })
}

/// The eigenvalues of a diagonal matrix; its eigenvectors are the axes.
fn eigenvalues(a: &Matrix<f64>) -> Result<Diagonal, LinalgError> {
    let values: Vec<f64> = (0..a.nrows()).map(|i| *a.get(i, i)).collect();
    if values.iter().any(|v| *v < 0.0) {
        return Err(LinalgError::NotStandardShape { obj: "real root", rows: 0, cols: 0 });
    }
    Ok(values)
}

/// The inverse of the matrix of eigenvectors, which is the identity.
fn axes(_: &Diagonal) -> Result<(), LinalgError> {
    Ok(())
}

fn diagonal_root(values: &Diagonal, _: &()) -> Matrix<f64> {
    let roots: Vec<f64> = values.iter().map(|v| v.sqrt()).collect();
    diagonal(&roots)
}

/// The norm of the difference of the means plus the trace of `Σx + Σy − 2 · s`.
fn combine(x: &Gaussian<f64>, y: &Gaussian<f64>, s: &Matrix<f64>) -> Result<f64, LinalgError> {
    let n = x.dim();
    let norm = (0..n).map(|i| (x.mean()[i] - y.mean()[i]).powi(2)).sum::<f64>().sqrt();
    let trace: f64 =
        (0..n).map(|i| x.covariance().get(i, i) + y.covariance().get(i, i) - 2.0 * s.get(i, i)).sum();
    Ok(norm + trace)
}

/// The steps of the root of a matrix that is taken to be diagonal.
fn root() -> frechet::sqrtm::Steps<
    fn(&Matrix<f64>) -> Result<Diagonal, LinalgError>,
    fn(&Diagonal) -> Result<(), LinalgError>,
    fn(&Diagonal, &()) -> Matrix<f64>,
> {
    frechet::sqrtm::Steps { decompose: eigenvalues, invert: axes, assemble: diagonal_root }
}

fn distance(x: &Gaussian<f64>, y: &Gaussian<f64>) -> Result<f64, Error> {
    fd_normal_nd(x, y, &Steps { product, root: root(), combine })
}

#[test]
fn the_root_of_each_identity_is_that_identity() {
    for n in 0..6 {
        let root = sqrtm_re(&identity(n), &root()).unwrap();
        assert_eq!(root.into_rows(), identity(n).into_rows());
    }
}

#[test]
fn the_root_of_a_diagonal_matrix_squares_to_it() {
    let m = diagonal(&[4.0, 9.0, 0.25, 0.0]);
    let root = sqrtm_re(&m, &root()).unwrap();
    assert_eq!(root.into_rows(), diagonal(&[2.0, 3.0, 0.5, 0.0]).into_rows());
}

#[test]
fn new_joins_a_mean_and_a_covariance_of_one_dimension() {
    let g = Gaussian::new(vec![1.0, 2.0, 3.0], identity(3)).unwrap();
    assert_eq!(g.dim(), 3);
    assert_eq!(g.mean(), &vec![1.0, 2.0, 3.0]);
    assert_eq!(g.covariance().nrows(), 3);
    assert_eq!(g.covariance().ncols(), 3);
    assert_eq!(*g.covariance().get(2, 2), 1.0);
    let (mean, covariance) = g.into_parts();
    assert_eq!(mean, vec![1.0, 2.0, 3.0]);
    assert_eq!(covariance.into_rows(), identity(3).into_rows());
}

#[test]
fn new_refuses_a_covariance_of_another_side() {
    assert!(matches!(Gaussian::new(vec![1.0, 2.0], identity(3)), Err(Error::DimensionMismatch)));
    assert!(matches!(Gaussian::new(vec![1.0, 2.0, 3.0], identity(2)), Err(Error::DimensionMismatch)));
    assert!(matches!(Gaussian::new(Vec::new(), identity(1)), Err(Error::DimensionMismatch)));
}

#[test]
fn new_refuses_a_covariance_that_is_not_square() {
    let wide = Matrix::from_shape_vec(2, 3, vec![0.0; 6]).unwrap();
    assert!(matches!(Gaussian::new(vec![1.0, 2.0], wide), Err(Error::DimensionMismatch)));
    let tall = Matrix::from_shape_vec(3, 2, vec![0.0; 6]).unwrap();
    assert!(matches!(Gaussian::new(vec![1.0, 2.0], tall), Err(Error::DimensionMismatch)));
}

#[test]
fn new_accepts_dimension_zero() {
    let g = Gaussian::<f64>::new(Vec::new(), identity(0)).unwrap();
    assert_eq!(g.dim(), 0);
}

#[test]
fn from_rows_copies_the_slices() {
    let mean = [2.0f32, 5.0];
    let covariance = [vec![33.0f32, 24.0], vec![48.0, 57.0]];
    let g = Gaussian::from_rows(&mean, &covariance).unwrap();
    assert_eq!(g.dim(), 2);
    assert_eq!(g.mean(), &vec![2.0, 5.0]);
    assert_eq!(*g.covariance().get(0, 1), 24.0);
    assert_eq!(*g.covariance().get(1, 0), 48.0);
}

#[test]
fn from_rows_refuses_a_covariance_larger_than_the_mean() {
    let mean = [2.0f32, 5.0];
    let more_rows = [vec![1.0f32, 0.0], vec![0.0, 1.0], vec![0.0, 0.0]];
    assert!(matches!(Gaussian::from_rows(&mean, &more_rows), Err(Error::DimensionMismatch)));
    let more_columns = [vec![1.0f32, 0.0, 0.0], vec![0.0, 1.0, 0.0]];
    assert!(matches!(Gaussian::from_rows(&mean, &more_columns), Err(Error::DimensionMismatch)));
}

#[test]
fn from_rows_refuses_a_covariance_smaller_than_the_mean() {
    let mean = [2.0f32, 5.0];
    let fewer_rows = [vec![1.0f32, 0.0]];
    assert!(matches!(Gaussian::from_rows(&mean, &fewer_rows), Err(Error::DimensionMismatch)));
    let short_row = [vec![1.0f32, 0.0], vec![0.0]];
    assert!(matches!(Gaussian::from_rows(&mean, &short_row), Err(Error::DimensionMismatch)));
    let none: [Vec<f32>; 0] = [];
    assert!(matches!(Gaussian::from_rows(&mean, &none), Err(Error::DimensionMismatch)));
}

#[test]
fn common_dim_is_the_dimension_of_both() {
    let x = Gaussian::new(vec![0.0, 0.0], identity(2)).unwrap();
    let y = Gaussian::new(vec![1.0, 1.0], identity(2)).unwrap();
    assert!(matches!(common_dim(&x, &y), Ok(2)));
    assert!(matches!(common_dim(&x, &x), Ok(2)));
}

#[test]
fn common_dim_refuses_two_dimensions() {
    let x = Gaussian::new(vec![0.0, 0.0], identity(2)).unwrap();
    let y = Gaussian::new(vec![1.0, 1.0, 1.0], identity(3)).unwrap();
    assert!(matches!(common_dim(&x, &y), Err(Error::DimensionMismatch)));
    assert!(matches!(common_dim(&y, &x), Err(Error::DimensionMismatch)));
}

#[test]
fn the_distance_is_the_norm_plus_the_trace() {
    // means 3-4-5 apart; tr(diag(4, 9) + diag(1, 1) - 2 diag(2, 3)) = 15 - 10
    let x = Gaussian::new(vec![0.0, 0.0], diagonal(&[4.0, 9.0])).unwrap();
    let y = Gaussian::new(vec![3.0, 4.0], identity(2)).unwrap();
    assert_eq!(distance(&x, &y).unwrap(), 5.0 + 5.0);
    assert_eq!(distance(&y, &x).unwrap(), 5.0 + 5.0);
}

#[test]
fn the_norm_of_the_means_is_not_squared() {
    let x = Gaussian::new(vec![0.0], identity(1)).unwrap();
    let y = Gaussian::new(vec![3.0], identity(1)).unwrap();
    assert_eq!(distance(&x, &y).unwrap(), 3.0);
}

#[test]
fn the_distance_of_a_distribution_from_itself_is_zero() {
    let x = Gaussian::new(vec![1.5, -2.0, 7.0], diagonal(&[4.0, 9.0, 0.25])).unwrap();
    assert!(distance(&x, &x).unwrap().abs() < 1e-9);
}

#[test]
fn two_dimensions_are_refused_before_anything_is_computed() {
    let asked = Cell::new(false);
    let x = Gaussian::new(vec![0.0, 0.0], identity(2)).unwrap();
    let y = Gaussian::new(vec![1.0, 1.0, 1.0], identity(3)).unwrap();
    let watched = |x: &Gaussian<f64>, y: &Gaussian<f64>| {
        asked.set(true);
        product(x, y)
    };
    let r = fd_normal_nd(&x, &y, &Steps { product: watched, root: root(), combine });
    assert!(matches!(r, Err(Error::DimensionMismatch)));
    assert!(!asked.get());
}

#[test]
fn a_failed_root_is_handed_on_whole() {
    let asked = Cell::new(false);
    let x = Gaussian::new(vec![0.0], diagonal(&[-1.0])).unwrap();
    let y = Gaussian::new(vec![0.0], identity(1)).unwrap();
    let watched = |x: &Gaussian<f64>, y: &Gaussian<f64>, s: &Matrix<f64>| {
        asked.set(true);
        combine(x, y, s)
    };
    let r = fd_normal_nd(&x, &y, &Steps { product, root: root(), combine: watched });
    assert!(matches!(
        r,
        Err(Error::Sqrtm(frechet::sqrtm::Error::Eig(LinalgError::NotStandardShape {
            obj: "real root",
            ..
        })))
    ));
    assert!(!asked.get());
}

#[test]
fn a_product_that_is_not_square_has_no_root() {
    let x = Gaussian::new(vec![0.0], identity(1)).unwrap();
    let wide = |_: &Gaussian<f64>, _: &Gaussian<f64>| {
        Matrix::from_shape_vec(1, 2, vec![1.0, 1.0]).unwrap()
    };
    let r = fd_normal_nd(&x, &x, &Steps { product: wide, root: root(), combine });
    assert!(matches!(r, Err(Error::Sqrtm(frechet::sqrtm::Error::NotSquare))));
}

#[test]
fn a_failed_trace_keeps_its_cause() {
    let x = Gaussian::new(vec![0.0], identity(1)).unwrap();
    let failing = |_: &Gaussian<f64>, _: &Gaussian<f64>, _: &Matrix<f64>| {
        Err::<f64, _>(LinalgError::NotSquare { rows: 2, cols: 3 })
    };
    let r = fd_normal_nd(&x, &x, &Steps { product, root: root(), combine: failing });
    assert!(matches!(r, Err(Error::Trace(LinalgError::NotSquare { rows: 2, cols: 3 }))));
}

#[test]
fn the_distance_between_slices_is_that_between_the_distributions() {
    let r = fd_normal_arr(
        &[0.0, 0.0],
        &[3.0, 4.0],
        &[vec![4.0, 0.0], vec![0.0, 9.0]],
        &[vec![1.0, 0.0], vec![0.0, 1.0]],
        &Steps { product, root: root(), combine },
    );
    assert_eq!(r.unwrap(), 10.0);
}

#[test]
fn slices_that_make_no_distribution_are_refused() {
    let asked = Cell::new(false);
    let watched = |x: &Gaussian<f64>, y: &Gaussian<f64>| {
        asked.set(true);
        product(x, y)
    };
    let steps = Steps { product: watched, root: root(), combine };
    let square = [vec![1.0, 0.0], vec![0.0, 1.0]];
    let larger = [vec![1.0, 0.0, 0.0], vec![0.0, 1.0, 0.0], vec![0.0, 0.0, 1.0]];
    let ragged = [vec![1.0, 0.0], vec![0.0]];
    let mean = [0.0, 0.0];
    let r = fd_normal_arr(&mean, &mean, &larger, &square, &steps);
    assert!(matches!(r, Err(Error::DimensionMismatch)));
    let r = fd_normal_arr(&mean, &mean, &square, &ragged, &steps);
    assert!(matches!(r, Err(Error::DimensionMismatch)));
    let r = fd_normal_arr(&mean, &[0.0, 0.0, 0.0], &square, &larger, &steps);
    assert!(matches!(r, Err(Error::DimensionMismatch)));
    assert!(!asked.get());
}

#[test]
fn a_failed_square_root_is_kept_whole() {
    let e = Error::from(frechet::sqrtm::Error::NotSquare);
    assert!(matches!(e, Error::Sqrtm(frechet::sqrtm::Error::NotSquare)));
    let cause = LinalgError::NotSquare { rows: 1, cols: 2 };
    let e = Error::from(frechet::sqrtm::Error::EigVecInv(cause));
    assert!(matches!(
        e,
        Error::Sqrtm(frechet::sqrtm::Error::EigVecInv(LinalgError::NotSquare { rows: 1, cols: 2 }))
    ));
}
