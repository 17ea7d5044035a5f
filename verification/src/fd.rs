//! [Fréchet Distance](https://en.wikipedia.org/wiki/Fr%C3%A9chet_distance)
//! between two Gaussians.
//!
//! For `(μx, Σx)` and `(μy, Σy)` of one dimension `n` the distance is
//! `‖μx − μy‖ + tr(Σx + Σy − 2 · sqrt(Σx · Σy))`. The Euclidean norm of the
//! difference of the means is not squared: this is the distance as computed
//! here, not the squared distance of the literature.
//! Every product, sum and index in that formula is defined once both
//! covariances are `n × n` and both means have `n` entries, and that is
//! settled before a number is touched.

use vstd::prelude::*;
use vstd::std_specs::convert::FromSpecImpl;
use crate::matrix::Matrix;
use crate::sqrtm::{can_root, root_of, sqrtm_re};
use ndarray_linalg::error::LinalgError;

verus! {

/// Why a Fréchet distance could not be computed.
#[derive(Debug)]
pub enum Error {
    /// The square root of the product of the covariances failed.
    Sqrtm(crate::sqrtm::Error),
    /// The trace of the combined covariances could not be taken.
    Trace(LinalgError),
    /// A mean and a covariance, or the two distributions, differ in dimension.
    DimensionMismatch,
}

impl From<crate::sqrtm::Error> for Error {
    /// A failure of the square root, kept whole.
    fn from(e: crate::sqrtm::Error) -> (r: Error) {
        Error::Sqrtm(e)
    }
}

impl FromSpecImpl<crate::sqrtm::Error> for Error {
    open spec fn obeys_from_spec() -> bool {
        true
    }

    open spec fn from_spec(e: crate::sqrtm::Error) -> Error {
        Error::Sqrtm(e)
    }
}

/// A multivariate Gaussian: a mean of `n` entries and an `n × n` covariance.
#[derive(Debug)]
pub struct Gaussian<T> {
    mean: Vec<T>,
    covariance: Matrix<T>,
}

/// What a [`Gaussian`] holds.
pub ghost struct GaussianView<T> {
    /// The entries of the mean.
    pub mean: Seq<T>,
    /// The rows of the covariance.
    pub covariance: Seq<Seq<T>>,
}

impl<T> GaussianView<T> {
    /// The dimension: the number of entries of the mean.
    pub open spec fn dim(self) -> nat {
        self.mean.len()
    }

    /// The covariance is square, of the side that the mean is long.
    pub open spec fn well_formed(self) -> bool {
        &&& self.covariance.len() == self.mean.len()
        &&& forall|i: int|
            0 <= i < self.covariance.len() ==> (#[trigger] self.covariance[i]).len()
                == self.mean.len()
    }
}

/// Whether a mean of `len` entries and a covariance of the given shape make a
/// distribution.
pub open spec fn fits(len: nat, height: nat, width: nat) -> bool {
    height == len && width == len
}

/// Whether `rows` are the rows of a square matrix of the given side.
pub open spec fn square_of_side<T>(rows: Seq<Vec<T>>, side: nat) -> bool {
    &&& rows.len() == side
    &&& forall|i: int| 0 <= i < rows.len() ==> (#[trigger] rows[i])@.len() == side
}

/// Whether `g` holds the given mean, and the given rows as its covariance.
pub open spec fn holds<T>(g: GaussianView<T>, mean: Seq<T>, covariance: Seq<Vec<T>>) -> bool {
    &&& g.mean == mean
    &&& g.covariance.len() == covariance.len()
    &&& forall|i: int| 0 <= i < covariance.len() ==> #[trigger] g.covariance[i] == covariance[i]@
    &&& g.well_formed()
}

impl<T> View for Gaussian<T> {
    type V = GaussianView<T>;

    closed spec fn view(&self) -> GaussianView<T> {
        GaussianView { mean: self.mean@, covariance: self.covariance@ }
    }
}

impl<T> Gaussian<T> {
    #[verifier::type_invariant]
    spec fn dimensions_agree(&self) -> bool {
        fits(self.mean@.len(), self.covariance.height(), self.covariance.width())
    }

    /// Joins a mean and a covariance of one dimension.
    pub fn new(mean: Vec<T>, covariance: Matrix<T>) -> (r: Result<Gaussian<T>, Error>)
        ensures
            match r {
                Ok(g) => {
                    &&& fits(mean@.len(), covariance.height(), covariance.width())
                    &&& g@.mean == mean@
                    &&& g@.covariance == covariance@
                    &&& g@.well_formed()
                },
                Err(e) => {
                    &&& !fits(mean@.len(), covariance.height(), covariance.width())
                    &&& e == Error::DimensionMismatch
                },
            },
    {
        if covariance.nrows() == mean.len() && covariance.ncols() == mean.len() {
            proof {
                covariance.lemma_rows_have_width();
            }
            Ok(Gaussian { mean, covariance })
        } else {
            Err(Error::DimensionMismatch)
        }
    }

    /// Copies a mean and the rows of a covariance given as slices.
    ///
    /// The covariance must have exactly as many rows as the mean has entries,
    /// and each row exactly as many cells: a larger one is refused, not cut.
    pub fn from_rows(mean: &[T], covariance: &[Vec<T>]) -> (r: Result<Gaussian<T>, Error>) where
        T: Copy,

        ensures
            match r {
                Ok(g) => square_of_side(covariance@, mean@.len()) && holds(g@, mean@, covariance@),
                Err(e) => {
                    &&& !square_of_side(covariance@, mean@.len())
                    &&& e == Error::DimensionMismatch
                },
            },
    {
        if covariance.len() != mean.len() {
            return Err(Error::DimensionMismatch);
        }
        let matrix = match Matrix::from_rows(covariance) {
            Some(m) => m,
            None => {
                return Err(Error::DimensionMismatch);
            },
        };
        if matrix.ncols() != mean.len() {
            return Err(Error::DimensionMismatch);
        }
        let mut entries: Vec<T> = Vec::new();
        let mut i: usize = 0;
        while i < mean.len()
            invariant
                i <= mean@.len(),
                entries@ == mean@.subrange(0, i as int),
            decreases mean@.len() - i,
        {
            entries.push(mean[i]);
            assert(entries@ =~= mean@.subrange(0, i + 1));
            i += 1;
        }
        assert(entries@ =~= mean@);
        proof {
            matrix.lemma_rows_have_width();
        }
        Ok(Gaussian { mean: entries, covariance: matrix })
    }

    /// Joins a mean and a covariance that are known to be of one dimension.
    pub(crate) fn joined(mean: Vec<T>, covariance: Matrix<T>) -> (g: Gaussian<T>)
        requires
            fits(mean@.len(), covariance.height(), covariance.width()),
        ensures
            g@.mean == mean@,
            g@.covariance == covariance@,
            g@.well_formed(),
    {
        proof {
            covariance.lemma_rows_have_width();
        }
        Gaussian { mean, covariance }
    }

    /// The dimension `n`.
    pub fn dim(&self) -> (n: usize)
        ensures
            n == self@.dim(),
            self@.well_formed(),
    {
        proof {
            use_type_invariant(self);
            self.covariance.lemma_rows_have_width();
        }
        self.mean.len()
    }

    /// The mean vector.
    pub fn mean(&self) -> (r: &Vec<T>)
        ensures
            r@ == self@.mean,
    {
        &self.mean
    }

    /// The covariance matrix, which is `dim() × dim()`.
    pub fn covariance(&self) -> (r: &Matrix<T>)
        ensures
            r@ == self@.covariance,
            r.height() == self@.dim(),
            r.width() == self@.dim(),
    {
        proof {
            use_type_invariant(self);
        }
        &self.covariance
    }

    /// Gives the mean and the covariance up.
    pub fn into_parts(self) -> (r: (Vec<T>, Matrix<T>))
        ensures
            r.0@ == self@.mean,
            r.1@ == self@.covariance,
            r.1.height() == self@.dim(),
            r.1.width() == self@.dim(),
    {
        proof {
            use_type_invariant(&self);
        }
        (self.mean, self.covariance)
    }
}

/// The dimension that two distributions share.
pub open spec fn shared_dim<T>(x: GaussianView<T>, y: GaussianView<T>) -> Option<nat> {
    if x.dim() == y.dim() {
        Some(x.dim())
    } else {
        None
    }
}

/// The dimension of both `x` and `y`, or `DimensionMismatch` where they differ.
///
/// A distance is defined only between distributions of one dimension: this is
/// asked before the covariances are multiplied.
pub fn common_dim<T>(x: &Gaussian<T>, y: &Gaussian<T>) -> (r: Result<usize, Error>)
    ensures
        match r {
            Ok(n) => shared_dim(x@, y@) == Some(n as nat),
            Err(e) => shared_dim(x@, y@) is None && e == Error::DimensionMismatch,
        },
        x@.well_formed(),
        y@.well_formed(),
{
    let n: usize = x.dim();
    if n == y.dim() {
        Ok(n)
    } else {
        Err(Error::DimensionMismatch)
    }
}

/// The steps of the distance that work on the numbers.
pub struct Steps<P, D, I, A, C> {
    /// Gives the product `Σx · Σy` of the covariances of two distributions.
    pub product: P,
    /// The steps of the square root, which is taken of the product.
    pub root: crate::sqrtm::Steps<D, I, A>,
    /// Gives, of two distributions and the root `s`, the distance: the norm of
    /// `μx − μy` plus the trace of `Σx + Σy − 2 · s`.
    pub combine: C,
}

/// Whether the steps can be asked what the distance between `x` and `y` takes.
/// Of two that differ in dimension nothing is asked. Of two that agree: the
/// product of the covariances, the square root of whatever the product may
/// give, and the combination with whatever the root may give.
pub open spec fn can_measure<T, E, V, P, D, I, A, C>(
    x: &Gaussian<T>,
    y: &Gaussian<T>,
    steps: &Steps<P, D, I, A, C>,
) -> bool where
    P: Fn(&Gaussian<T>, &Gaussian<T>) -> Matrix<T>,
    D: Fn(&Matrix<T>) -> Result<E, LinalgError>,
    I: Fn(&E) -> Result<V, LinalgError>,
    A: Fn(&E, &V) -> Matrix<T>,
    C: Fn(&Gaussian<T>, &Gaussian<T>, &Matrix<T>) -> Result<T, LinalgError>,
 {
    x@.dim() == y@.dim() ==> {
        &&& call_requires(steps.product, (x, y))
        &&& forall|p: Matrix<T>| #[trigger]
            call_ensures(steps.product, (x, y), p) ==> can_root(&p, &steps.root)
        &&& forall|p: Matrix<T>, s: Matrix<T>|
            call_ensures(steps.product, (x, y), p) && #[trigger] root_of(
                &p,
                &steps.root,
                Ok::<Matrix<T>, crate::sqrtm::Error>(s),
            ) ==> call_requires(steps.combine, (x, y, &s))
    }
}

/// Whether `r` is what the distance between `x` and `y` comes to with the
/// given steps.
///
/// Two distributions of different dimensions have `DimensionMismatch`,
/// whatever the steps would do. Of two that agree, the covariances are
/// multiplied, the square root of the product is taken, and the means, the
/// covariances and the root are combined into the distance. A failure of the
/// root is handed on whole, as `Sqrtm`; a failure of the combination, which
/// takes a trace, as `Trace`.
pub open spec fn distance_of<T, E, V, P, D, I, A, C>(
    x: &Gaussian<T>,
    y: &Gaussian<T>,
    steps: &Steps<P, D, I, A, C>,
    r: Result<T, Error>,
) -> bool where
    P: Fn(&Gaussian<T>, &Gaussian<T>) -> Matrix<T>,
    D: Fn(&Matrix<T>) -> Result<E, LinalgError>,
    I: Fn(&E) -> Result<V, LinalgError>,
    A: Fn(&E, &V) -> Matrix<T>,
    C: Fn(&Gaussian<T>, &Gaussian<T>, &Matrix<T>) -> Result<T, LinalgError>,
 {
    match r {
        Ok(d) => {
            &&& x@.dim() == y@.dim()
            &&& exists|p: Matrix<T>, s: Matrix<T>|
                {
                    &&& call_ensures(steps.product, (x, y), p)
                    &&& #[trigger] root_of(
                        &p,
                        &steps.root,
                        Ok::<Matrix<T>, crate::sqrtm::Error>(s),
                    )
                    &&& call_ensures(steps.combine, (x, y, &s), Ok::<T, LinalgError>(d))
                }
        },
        Err(Error::DimensionMismatch) => x@.dim() != y@.dim(),
        Err(Error::Sqrtm(e)) => {
            &&& x@.dim() == y@.dim()
            &&& exists|p: Matrix<T>|
                {
                    &&& #[trigger] call_ensures(steps.product, (x, y), p)
                    &&& root_of(&p, &steps.root, Err::<Matrix<T>, crate::sqrtm::Error>(e))
                }
        },
        Err(Error::Trace(cause)) => {
            &&& x@.dim() == y@.dim()
            &&& exists|p: Matrix<T>, s: Matrix<T>|
                {
                    &&& call_ensures(steps.product, (x, y), p)
                    &&& #[trigger] root_of(
                        &p,
                        &steps.root,
                        Ok::<Matrix<T>, crate::sqrtm::Error>(s),
                    )
                    &&& call_ensures(steps.combine, (x, y, &s), Err::<T, LinalgError>(cause))
                }
        },
    }
}

/// Calculating the Fréchet Distance between two normal (Gaussian) distributions.
///
/// The distance is `‖μx − μy‖ + tr(Σx + Σy − 2 · sqrt(Σx · Σy))`, with the norm
/// of the difference of the means not squared. The arithmetic is the caller's,
/// in the `steps`; the square root is taken by [`sqrtm_re`].
///
/// Two distributions of different dimensions are refused before any step is
/// asked, and nothing is asked after a step has failed.
pub fn fd_normal_nd<T, E, V, P, D, I, A, C>(
    x: &Gaussian<T>,
    y: &Gaussian<T>,
    steps: &Steps<P, D, I, A, C>,
) -> (r: Result<T, Error>) where
    P: Fn(&Gaussian<T>, &Gaussian<T>) -> Matrix<T>,
    D: Fn(&Matrix<T>) -> Result<E, LinalgError>,
    I: Fn(&E) -> Result<V, LinalgError>,
    A: Fn(&E, &V) -> Matrix<T>,
    C: Fn(&Gaussian<T>, &Gaussian<T>, &Matrix<T>) -> Result<T, LinalgError>,

    requires
        can_measure(x, y, steps),
    ensures
        distance_of(x, y, steps, r),
{
    match common_dim(x, y) {
        Ok(_) => {},
        Err(e) => {
            return Err(e);
        },
    }
    let p = (steps.product)(x, y);
    let s = match sqrtm_re(&p, &steps.root) {
        Ok(s) => s,
        Err(e) => {
            return Err(Error::Sqrtm(e));
        },
    };
    assert(root_of(&p, &steps.root, Ok::<Matrix<T>, crate::sqrtm::Error>(s)));
    match (steps.combine)(x, y, &s) {
        Ok(d) => {
            let r = Ok(d);
            assert(call_ensures(steps.combine, (x, y, &s), Ok::<T, LinalgError>(r->Ok_0)));
            r
        },
        Err(cause) => {
            let r = Err(Error::Trace(cause));
            assert(call_ensures(
                steps.combine,
                (x, y, &s),
                Err::<T, LinalgError>(r->Err_0->Trace_0),
            ));
            r
        },
    }
}

/// Whether `r` is what the distance between the distributions given as slices
/// comes to with the given steps: `DimensionMismatch` where one of them is no
/// distribution, and else what the distance between the two comes to.
pub open spec fn distance_of_rows<T, E, V, P, D, I, A, C>(
    mu_x: Seq<T>,
    mu_y: Seq<T>,
    sigma_x: Seq<Vec<T>>,
    sigma_y: Seq<Vec<T>>,
    steps: &Steps<P, D, I, A, C>,
    r: Result<T, Error>,
) -> bool where
    P: Fn(&Gaussian<T>, &Gaussian<T>) -> Matrix<T>,
    D: Fn(&Matrix<T>) -> Result<E, LinalgError>,
    I: Fn(&E) -> Result<V, LinalgError>,
    A: Fn(&E, &V) -> Matrix<T>,
    C: Fn(&Gaussian<T>, &Gaussian<T>, &Matrix<T>) -> Result<T, LinalgError>,
 {
    if square_of_side(sigma_x, mu_x.len()) && square_of_side(sigma_y, mu_y.len()) {
        exists|x: Gaussian<T>, y: Gaussian<T>|
            {
                &&& holds(x@, mu_x, sigma_x)
                &&& holds(y@, mu_y, sigma_y)
                &&& #[trigger] distance_of(&x, &y, steps, r)
            }
    } else {
        r == Err::<T, Error>(Error::DimensionMismatch)
    }
}

/// Calculating the Fréchet Distance between two normal (Gaussian) distributions
/// given as slices.
///
/// Each mean must have as many entries as its covariance has rows, and each
/// row as many cells; a distribution that does not is refused with
/// `DimensionMismatch`. The two are then measured as by [`fd_normal_nd`], with
/// the same steps.
pub fn fd_normal_arr<T: Copy, E, V, P, D, I, A, C>(
    mu_x: &[T],
    mu_y: &[T],
    sigma_x: &[Vec<T>],
    sigma_y: &[Vec<T>],
    steps: &Steps<P, D, I, A, C>,
) -> (r: Result<T, Error>) where
    P: Fn(&Gaussian<T>, &Gaussian<T>) -> Matrix<T>,
    D: Fn(&Matrix<T>) -> Result<E, LinalgError>,
    I: Fn(&E) -> Result<V, LinalgError>,
    A: Fn(&E, &V) -> Matrix<T>,
    C: Fn(&Gaussian<T>, &Gaussian<T>, &Matrix<T>) -> Result<T, LinalgError>,

    requires
        forall|x: Gaussian<T>, y: Gaussian<T>|
            holds(x@, mu_x@, sigma_x@) && holds(y@, mu_y@, sigma_y@) ==> #[trigger] can_measure(
                &x,
                &y,
                steps,
            ),
    ensures
        distance_of_rows(mu_x@, mu_y@, sigma_x@, sigma_y@, steps, r),
{
    let x = match Gaussian::from_rows(mu_x, sigma_x) {
        Ok(x) => x,
        Err(e) => {
            return Err(e);
        },
    };
    let y = match Gaussian::from_rows(mu_y, sigma_y) {
        Ok(y) => y,
        Err(e) => {
            return Err(e);
        },
    };
    fd_normal_nd(&x, &y, steps)
}

} // verus!
