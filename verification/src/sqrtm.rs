//! The real part of the square root of a matrix.
//!
//! The root is taken through an eigendecomposition `M = V · Λ · V⁻¹`: with `D`
//! the diagonal matrix of the principal square roots of the eigenvalues, it is
//! the real part of `V · D · V⁻¹`. Only a square matrix has one. The
//! imaginary part, which is dropped, is numerical noise where `M` is symmetric
//! and positive semi-definite, as a product of covariances is meant to be; of
//! another matrix it can be large, and what is left is then no root of `M`.

use vstd::prelude::*;
use crate::matrix::Matrix;
use ndarray_linalg::error::LinalgError;

verus! {

/// `ndarray_linalg::error::LinalgError`, the error of every routine of that
/// crate. Nothing is claimed of what a value holds: it is carried as the cause
/// of an error of this crate, and never looked into.
#[verifier::external_type_specification]
#[verifier::external_body]
pub struct ExLinalgError(LinalgError);

/// Why the square root of a matrix could not be computed.
#[derive(Debug)]
pub enum Error {
    /// The matrix has not as many rows as columns.
    NotSquare,
    /// The eigenvalues and eigenvectors could not be computed.
    Eig(LinalgError),
    /// The matrix of eigenvectors has no inverse.
    EigVecInv(LinalgError),
}

/// The side of a square matrix of `rows` rows and `cols` columns.
pub open spec fn side_of(rows: nat, cols: nat) -> Option<nat> {
    if rows == cols {
        Some(rows)
    } else {
        None
    }
}

/// The side of a matrix of `rows` rows and `cols` columns, or `NotSquare`
/// where the two differ.
///
/// This is the first step of the square root and the only one that can refuse a
/// matrix for its shape.
pub fn square_dim(rows: usize, cols: usize) -> (r: Result<usize, Error>)
    ensures
        match r {
            Ok(n) => side_of(rows as nat, cols as nat) == Some(n as nat),
            Err(e) => side_of(rows as nat, cols as nat) is None && e == Error::NotSquare,
        },
{
    if rows == cols {
        Ok(rows)
    } else {
        Err(Error::NotSquare)
    }
}

/// The three steps of the square root that work on the numbers.
pub struct Steps<D, I, A> {
    /// Gives the eigenvalues and the eigenvectors of a matrix.
    pub decompose: D,
    /// Gives the inverse of the matrix of eigenvectors that a decomposition
    /// found.
    pub invert: I,
    /// Gives the real part of `V · D · V⁻¹` from what the other two gave.
    pub assemble: A,
}

/// Whether the three steps can be asked what the root of `a` takes. Of a
/// matrix that is not square nothing is asked. Of a square one: the
/// decomposition of `a`, the inversion of whatever the decomposition may give,
/// and the assembly of whatever the two may give.
pub open spec fn can_root<T, E, V, D, I, A>(a: &Matrix<T>, steps: &Steps<D, I, A>) -> bool where
    D: Fn(&Matrix<T>) -> Result<E, LinalgError>,
    I: Fn(&E) -> Result<V, LinalgError>,
    A: Fn(&E, &V) -> Matrix<T>,
 {
    a.height() == a.width() ==> {
        &&& call_requires(steps.decompose, (a,))
        &&& forall|e: E|
            call_ensures(steps.decompose, (a,), Ok::<E, LinalgError>(e)) ==> call_requires(
                steps.invert,
                (&e,),
            )
        &&& forall|e: E, v: V|
            call_ensures(steps.decompose, (a,), Ok::<E, LinalgError>(e)) && call_ensures(
                steps.invert,
                (&e,),
                Ok::<V, LinalgError>(v),
            ) ==> call_requires(steps.assemble, (&e, &v))
    }
}

/// Whether `r` is what the square root of `a` comes to with the given steps.
///
/// A matrix that is not square has `NotSquare`, whatever the steps would do.
/// A square one is decomposed, what was found is inverted, and the root is
/// assembled from the two; the first step that fails gives its own error,
/// which holds what the step gave as the cause.
pub open spec fn root_of<T, E, V, D, I, A>(
    a: &Matrix<T>,
    steps: &Steps<D, I, A>,
    r: Result<Matrix<T>, Error>,
) -> bool where
    D: Fn(&Matrix<T>) -> Result<E, LinalgError>,
    I: Fn(&E) -> Result<V, LinalgError>,
    A: Fn(&E, &V) -> Matrix<T>,
 {
    match r {
        Ok(root) => {
            &&& a.height() == a.width()
            &&& exists|e: E, v: V|
                {
                    &&& call_ensures(steps.decompose, (a,), Ok::<E, LinalgError>(e))
                    &&& call_ensures(steps.invert, (&e,), Ok::<V, LinalgError>(v))
                    &&& #[trigger] call_ensures(steps.assemble, (&e, &v), root)
                }
        },
        Err(Error::NotSquare) => a.height() != a.width(),
        Err(Error::Eig(cause)) => {
            &&& a.height() == a.width()
            &&& call_ensures(steps.decompose, (a,), Err::<E, LinalgError>(cause))
        },
        Err(Error::EigVecInv(cause)) => {
            &&& a.height() == a.width()
            &&& exists|e: E|
                {
                    &&& #[trigger] call_ensures(steps.decompose, (a,), Ok::<E, LinalgError>(e))
                    &&& call_ensures(steps.invert, (&e,), Err::<V, LinalgError>(cause))
                }
        },
    }
}

/// Returns the real part of the square root of a matrix.
///
/// The root is `V · D · V⁻¹`, where the columns of `V` are the eigenvectors of
/// `a` and `D` is diagonal with the principal square roots of its
/// eigenvalues. The arithmetic is the caller's, in the three `steps`.
///
/// A matrix that is not square is refused before any of them is asked. The
/// first step that fails ends the computation with its own error; nothing is
/// tried a second time.
pub fn sqrtm_re<T, E, V, D, I, A>(a: &Matrix<T>, steps: &Steps<D, I, A>) -> (r: Result<
    Matrix<T>,
    Error,
>) where
    D: Fn(&Matrix<T>) -> Result<E, LinalgError>,
    I: Fn(&E) -> Result<V, LinalgError>,
    A: Fn(&E, &V) -> Matrix<T>,

    requires
        can_root(a, steps),
    ensures
        root_of(a, steps, r),
{
    match square_dim(a.nrows(), a.ncols()) {
        Ok(_) => {},
        Err(e) => {
            return Err(e);
        },
    }
    let eigen = match (steps.decompose)(a) {
        Ok(eigen) => eigen,
        Err(cause) => {
            return Err(Error::Eig(cause));
        },
    };
    let inverse = match (steps.invert)(&eigen) {
        Ok(inverse) => inverse,
        Err(cause) => {
            return Err(Error::EigVecInv(cause));
        },
    };
    let root = (steps.assemble)(&eigen, &inverse);
    let r = Ok(root);
    assert(call_ensures(steps.decompose, (a,), Ok::<E, LinalgError>(eigen)) && call_ensures(
        steps.invert,
        (&eigen,),
        Ok::<V, LinalgError>(inverse),
    ) && call_ensures(steps.assemble, (&eigen, &inverse), r->Ok_0));
    r
}

} // verus!
