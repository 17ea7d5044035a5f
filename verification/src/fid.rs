//! Fréchet inception distance: from two batches to the distance between the
//! Gaussians fitted to their features.
//!
//! The extractor yields, for a batch of `B` inputs, a tensor whose first axis
//! is the batch. Its other axes are flattened, so that each input becomes one
//! row of a `B × n` matrix; a Gaussian is fitted to the rows of each of two such
//! matrices, and the distance is taken between the two.

use vstd::prelude::*;
use vstd::std_specs::convert::FromSpecImpl;
use crate::fd::{can_measure, distance_of, fd_normal_nd, Gaussian};
use crate::fid_forward::{stage_at, Stage, STAGE_COUNT};
use crate::matrix::Matrix;
use ndarray_linalg::error::LinalgError;

verus! {

/// Why the distance between two batches could not be computed.
#[derive(Debug)]
pub enum Error {
    /// The distance between the two fitted Gaussians failed.
    Trace(crate::fd::Error),
    /// The extractor has no stage of the index asked for.
    Forward(crate::fid_forward::Error),
}

impl From<crate::fd::Error> for Error {
    /// A failure of the distance, kept whole.
    fn from(e: crate::fd::Error) -> (r: Error) {
        Error::Trace(e)
    }
}

impl FromSpecImpl<crate::fd::Error> for Error {
    open spec fn obeys_from_spec() -> bool {
        true
    }

    open spec fn from_spec(e: crate::fd::Error) -> Error {
        Error::Trace(e)
    }
}

impl From<crate::fid_forward::Error> for Error {
    /// A failure to reach a stage, kept whole.
    fn from(e: crate::fid_forward::Error) -> (r: Error) {
        Error::Forward(e)
    }
}

impl FromSpecImpl<crate::fid_forward::Error> for Error {
    open spec fn obeys_from_spec() -> bool {
        true
    }

    open spec fn from_spec(e: crate::fid_forward::Error) -> Error {
        Error::Forward(e)
    }
}

/// The product of the extents `dims`; 1 where there is none.
pub open spec fn volume(dims: Seq<usize>) -> nat
    decreases dims.len(),
{
    if dims.len() == 0 {
        1
    } else {
        (volume(dims.drop_last()) * dims.last()) as nat
    }
}

/// The number of features of one sample of a tensor of shape `dims`: the
/// volume of all its axes but the first.
pub open spec fn features(dims: Seq<usize>) -> nat {
    volume(dims.subrange(1, dims.len() as int))
}

/// Whether a tensor of shape `dims` that holds `len` values can be laid out
/// as a matrix with one row for each sample.
pub open spec fn flattens(dims: Seq<usize>, len: nat) -> bool {
    &&& dims.len() >= 1
    &&& features(dims) <= usize::MAX
    &&& dims[0] * features(dims) == len
}

/// An extent of 0 anywhere makes the volume 0.
proof fn lemma_volume_zero(dims: Seq<usize>, k: int)
    requires
        0 <= k < dims.len(),
        dims[k] == 0,
    ensures
        volume(dims) == 0,
    decreases dims.len(),
{
    if k < dims.len() - 1 {
        lemma_volume_zero(dims.drop_last(), k);
    }
    assert(volume(dims.drop_last()) * dims.last() == 0) by (nonlinear_arith)
        requires
            volume(dims.drop_last()) == 0 || dims.last() == 0,
    ;
}

/// Where no extent is 0, the volume is at least 1 and at least that of any
/// leading part.
proof fn lemma_volume_grows(dims: Seq<usize>, k: int)
    requires
        0 <= k <= dims.len(),
        forall|i: int| 0 <= i < dims.len() ==> #[trigger] dims[i] > 0,
    ensures
        1 <= volume(dims.subrange(0, k)) <= volume(dims),
    decreases dims.len() - k,
{
    if k == dims.len() {
        assert(dims.subrange(0, k) =~= dims);
        lemma_volume_positive(dims);
    } else {
        lemma_volume_grows(dims, k + 1);
        let longer = dims.subrange(0, k + 1);
        assert(longer.drop_last() =~= dims.subrange(0, k));
        lemma_volume_positive(dims.subrange(0, k));
        assert(volume(dims.subrange(0, k)) <= volume(dims.subrange(0, k)) * longer.last())
            by (nonlinear_arith)
            requires
                volume(dims.subrange(0, k)) >= 1,
                longer.last() >= 1,
        ;
    }
}

/// Where no extent is 0, the volume is at least 1.
proof fn lemma_volume_positive(dims: Seq<usize>)
    requires
        forall|i: int| 0 <= i < dims.len() ==> #[trigger] dims[i] > 0,
    ensures
        volume(dims) >= 1,
    decreases dims.len(),
{
    if dims.len() > 0 {
        lemma_volume_positive(dims.drop_last());
        assert(volume(dims.drop_last()) * dims.last() >= 1) by (nonlinear_arith)
            requires
                volume(dims.drop_last()) >= 1,
                dims.last() >= 1,
        ;
    }
}

/// The number of features of one sample of a tensor of shape `dims`, where
/// that number can be held.
fn feature_count(dims: &[usize]) -> (r: Option<usize>)
    requires
        dims@.len() >= 1,
    ensures
        match r {
            Some(n) => n == features(dims@),
            None => features(dims@) > usize::MAX,
        },
{
    let ghost tail = dims@.subrange(1, dims@.len() as int);
    let mut k: usize = 1;
    while k < dims.len()
        invariant
            1 <= k <= dims@.len(),
            tail == dims@.subrange(1, dims@.len() as int),
            forall|i: int| 1 <= i < k ==> #[trigger] dims@[i] > 0,
        decreases dims@.len() - k,
    {
        if dims[k] == 0 {
            proof {
                lemma_volume_zero(tail, k - 1);
            }
            return Some(0);
        }
        k += 1;
    }
    let mut count: usize = 1;
    let mut k: usize = 1;
    while k < dims.len()
        invariant
            1 <= k <= dims@.len(),
            tail == dims@.subrange(1, dims@.len() as int),
            forall|i: int| 0 <= i < tail.len() ==> #[trigger] tail[i] > 0,
            count == volume(tail.subrange(0, k - 1)),
        decreases dims@.len() - k,
    {
        proof {
            assert(tail.subrange(0, k as int).drop_last() =~= tail.subrange(0, k - 1));
            assert(tail.subrange(0, k as int).last() == dims@[k as int]);
            lemma_volume_grows(tail, k as int);
        }
        match count.checked_mul(dims[k]) {
            Some(next) => {
                count = next;
            },
            None => {
                return None;
            },
        }
        k += 1;
    }
    proof {
        assert(tail.subrange(0, k - 1) =~= tail);
    }
    Some(count)
}

/// The features taken at any stage of the extractor, of a batch of any size,
/// can be laid out as a matrix: one row for each sample, and in each row as
/// many cells as the stage has channels times height times width.
pub proof fn lemma_stage_flattens(stage: Stage, n: usize)
    ensures
        features(stage.batch_shape(n)) == stage.sample_shape().0 * stage.sample_shape().1
            * stage.sample_shape().2,
        flattens(stage.batch_shape(n), (n * features(stage.batch_shape(n))) as nat),
{
    let (c, h, w) = stage.sample_shape();
    let dims = stage.batch_shape(n);
    let tail = dims.subrange(1, dims.len() as int);
    let two = tail.drop_last();
    let one = two.drop_last();
    assert(tail =~= seq![c, h, w]);
    assert(two =~= seq![c, h]);
    assert(one =~= seq![c]);
    assert(one.drop_last() =~= Seq::<usize>::empty());
    assert(volume(one.drop_last()) * one.last() == c) by (nonlinear_arith)
        requires
            volume(one.drop_last()) == 1,
            one.last() == c,
    ;
    assert(volume(one) == c);
    assert(volume(two) == volume(one) * two.last());
    assert(volume(tail) == volume(two) * tail.last());
    assert(volume(tail) == c * h * w) by (nonlinear_arith)
        requires
            volume(tail) == volume(two) * w,
            volume(two) == volume(one) * h,
            volume(one) == c,
    ;
    assert(c * h * w <= usize::MAX) by (nonlinear_arith)
        requires
            0 <= c <= 2048,
            0 <= h <= 299,
            0 <= w <= 299,
    ;
}

/// Whether `m` is the matrix of a tensor of shape `dims` that holds `values`:
/// one row for each sample, and in row `i` the values of sample `i` in the
/// order in which they stand in `values`.
pub open spec fn flat_of<T>(m: Matrix<T>, dims: Seq<usize>, values: Seq<T>) -> bool {
    &&& m@.len() == dims[0]
    &&& m.width() == features(dims)
    &&& forall|i: int, j: int|
        0 <= i < m@.len() && 0 <= j < m.width() ==> #[trigger] m@[i][j] == values[i * m.width()
            + j]
}

/// Lays the values of a tensor out as a matrix with one row for each sample.
///
/// `dims` is the shape of the tensor, its first axis the batch, and `values`
/// its contents with the last axis running fastest. Row `i` of the result
/// holds the values of sample `i` in the order in which they stand in
/// `values`. The tensor must have an axis, and as many values as its shape
/// says.
pub fn flatten_features<T: Copy>(dims: &[usize], values: Vec<T>) -> (r: Option<Matrix<T>>)
    ensures
        r is Some <==> flattens(dims@, values@.len()),
        r matches Some(m) ==> flat_of(m, dims@, values@),
{
    if dims.len() == 0 {
        return None;
    }
    match feature_count(dims) {
        Some(n) => Matrix::from_shape_vec(dims[0], n, values),
        None => None,
    }
}

/// The two steps of the fit that work on the numbers.
pub struct Steps<M, C> {
    /// `mean_of(data)` gives the mean of the rows of `data`: for each column
    /// its sum, over the number of rows.
    pub mean_of: M,
    /// `cov_of(data, i, mi, j, mj)`, with `mi` and `mj` the entries `i` and `j`
    /// of the mean, gives the covariance of columns `i` and `j`: the sum over
    /// the rows `x` of `(x[i] - mi) * (x[j] - mj)`, over the number of rows.
    pub cov_of: C,
}

/// Whether the two steps can be asked what a fit to the rows of `data` takes:
/// the mean, which has an entry for each column, and then the covariance of
/// each two columns, the second not after the first, with the entries that
/// the mean has for them.
pub open spec fn can_fit<T, M, C>(data: &Matrix<T>, steps: &Steps<M, C>) -> bool where
    M: Fn(&Matrix<T>) -> Vec<T>,
    C: Fn(&Matrix<T>, usize, T, usize, T) -> T,
 {
    &&& call_requires(steps.mean_of, (data,))
    &&& forall|mean: Vec<T>| #[trigger]
        call_ensures(steps.mean_of, (data,), mean) ==> {
            &&& mean@.len() == data.width()
            &&& forall|i: usize, j: usize|
                j <= i < data.width() ==> call_requires(
                    steps.cov_of,
                    (data, i, mean@[i as int], j, mean@[j as int]),
                )
        }
}

/// Whether `g` is a Gaussian that the two steps can fit to the rows of `data`.
///
/// Its dimension is the number of columns, and its mean is what `mean_of`
/// gave. Each cell of its covariance on or below the diagonal is what `cov_of`
/// gave for the two columns and for the entries of that very mean, and each
/// cell above the diagonal is the cell below it that mirrors it.
pub open spec fn fitted<T, M, C>(data: &Matrix<T>, steps: &Steps<M, C>, g: Gaussian<T>) -> bool where
    M: Fn(&Matrix<T>) -> Vec<T>,
    C: Fn(&Matrix<T>, usize, T, usize, T) -> T,
 {
    &&& g@.dim() == data.width()
    &&& g@.well_formed()
    &&& exists|mean: Vec<T>| #[trigger]
        call_ensures(steps.mean_of, (data,), mean) && mean@ == g@.mean
    &&& forall|i: int, j: int|
        0 <= j <= i < data.width() ==> call_ensures(
            steps.cov_of,
            (data, i as usize, g@.mean[i], j as usize, g@.mean[j]),
            #[trigger] g@.covariance[i][j],
        )
    &&& forall|i: int, j: int|
        0 <= i < data.width() && 0 <= j < data.width() ==> #[trigger] g@.covariance[i][j]
            == g@.covariance[j][i]
}

/// Fits a Gaussian to the rows of `data`: its mean, and its covariance with
/// the number of rows as the divisor.
///
/// The arithmetic is the caller's, in the two `steps`. The covariance of two
/// columns is asked for once, with the later column first, and stands in both
/// cells that belong to the two.
///
/// There must be a row: without one there is no mean.
pub fn fit_gaussian<T: Copy, M, C>(data: &Matrix<T>, steps: &Steps<M, C>) -> (g: Gaussian<T>) where
    M: Fn(&Matrix<T>) -> Vec<T>,
    C: Fn(&Matrix<T>, usize, T, usize, T) -> T,

    requires
        data.height() >= 1,
        can_fit(data, steps),
    ensures
        fitted(data, steps, g),
{
    let n: usize = data.ncols();
    let mean = (steps.mean_of)(data);
    assert(call_ensures(steps.mean_of, (data,), mean));
    let fitted = &mean;
    let cell = |i: usize, j: usize| -> (c: T)
        requires
            j <= i < n,
        ensures
            call_ensures(steps.cov_of, (data, i, fitted@[i as int], j, fitted@[j as int]), c),
        { (steps.cov_of)(data, i, fitted[i], j, fitted[j]) };
    let covariance = Matrix::symmetric_from_fn(n, cell);
    let ghost given = mean;
    let g = Gaussian::joined(mean, covariance);
    assert(call_ensures(steps.mean_of, (data,), given) && given@ == g@.mean);
    g
}

/// Whether `m` is the matrix of the features of the batch `x` at `stage`:
/// `forward` can give those features, and `read` can give a shape and values
/// of them that `m` is the matrix of.
pub open spec fn embedded_at<X, T, F, R>(x: X, stage: Stage, forward: F, read: R, m: Matrix<T>) -> bool where
    F: Fn(X, Stage) -> X,
    R: Fn(X) -> (Vec<usize>, Vec<T>),
 {
    exists|t: X, dims: Vec<usize>, values: Vec<T>|
        {
            &&& call_ensures(forward, (x, stage), t)
            &&& #[trigger] call_ensures(read, (t,), (dims, values))
            &&& flat_of(m, dims@, values@)
        }
}

/// Whether `g` is a Gaussian that can be fitted to the batch `x` at `stage`:
/// to the rows of the matrix of its features there.
pub open spec fn fitted_at<X, T, F, R, M, C>(
    x: X,
    stage: Stage,
    forward: F,
    read: R,
    fit: &Steps<M, C>,
    g: Gaussian<T>,
) -> bool where
    F: Fn(X, Stage) -> X,
    R: Fn(X) -> (Vec<usize>, Vec<T>),
    M: Fn(&Matrix<T>) -> Vec<T>,
    C: Fn(&Matrix<T>, usize, T, usize, T) -> T,
 {
    exists|m: Matrix<T>| #[trigger] embedded_at(x, stage, forward, read, m) && fitted(&m, fit, g)
}

/// Whether a fit to the batch `x` at `stage` can be asked for.
///
/// `forward` can be asked for the features of `x`, and `read` for whatever
/// features there may be. What `read` gives is a tensor: it has an axis, and as
/// many values as its shape says. Its first axis, the batch, is not empty. And
/// the steps of the fit can be asked what a fit to its matrix takes.
pub open spec fn can_fit_at<X, T, F, R, M, C>(
    x: X,
    stage: Stage,
    forward: F,
    read: R,
    fit: &Steps<M, C>,
) -> bool where
    F: Fn(X, Stage) -> X,
    R: Fn(X) -> (Vec<usize>, Vec<T>),
    M: Fn(&Matrix<T>) -> Vec<T>,
    C: Fn(&Matrix<T>, usize, T, usize, T) -> T,
 {
    &&& call_requires(forward, (x, stage))
    &&& forall|t: X| #[trigger] call_ensures(forward, (x, stage), t) ==> call_requires(read, (t,))
    &&& forall|t: X, dims: Vec<usize>, values: Vec<T>|
        call_ensures(forward, (x, stage), t) && #[trigger] call_ensures(read, (t,), (dims, values))
            ==> flattens(dims@, values@.len()) && dims@[0] >= 1
    &&& forall|m: Matrix<T>| #[trigger]
        embedded_at(x, stage, forward, read, m) ==> can_fit(&m, fit)
}

/// Whether `outcome` is what the distance between a fit to `a` and a fit to
/// `b`, both at `stage`, can come to.
pub open spec fn measured_at<X, T, E, V, F, R, M, C, P, D, I, A, B>(
    a: X,
    b: X,
    stage: Stage,
    forward: F,
    read: R,
    fit: &Steps<M, C>,
    distance: &crate::fd::Steps<P, D, I, A, B>,
    outcome: Result<T, crate::fd::Error>,
) -> bool where
    F: Fn(X, Stage) -> X,
    R: Fn(X) -> (Vec<usize>, Vec<T>),
    M: Fn(&Matrix<T>) -> Vec<T>,
    C: Fn(&Matrix<T>, usize, T, usize, T) -> T,
    P: Fn(&Gaussian<T>, &Gaussian<T>) -> Matrix<T>,
    D: Fn(&Matrix<T>) -> Result<E, LinalgError>,
    I: Fn(&E) -> Result<V, LinalgError>,
    A: Fn(&E, &V) -> Matrix<T>,
    B: Fn(&Gaussian<T>, &Gaussian<T>, &Matrix<T>) -> Result<T, LinalgError>,
 {
    exists|ga: Gaussian<T>, gb: Gaussian<T>|
        {
            &&& fitted_at(a, stage, forward, read, fit, ga)
            &&& fitted_at(b, stage, forward, read, fit, gb)
            &&& #[trigger] distance_of(&ga, &gb, distance, outcome)
        }
}

/// The Gaussian fitted to the batch `x` at `stage`.
fn fit_at<X, T: Copy, F, R, M, C>(x: X, stage: Stage, forward: &F, read: &R, fit: &Steps<M, C>) -> (g:
    Gaussian<T>) where
    F: Fn(X, Stage) -> X,
    R: Fn(X) -> (Vec<usize>, Vec<T>),
    M: Fn(&Matrix<T>) -> Vec<T>,
    C: Fn(&Matrix<T>, usize, T, usize, T) -> T,

    requires
        can_fit_at(x, stage, *forward, *read, fit),
    ensures
        fitted_at(x, stage, *forward, *read, fit, g),
{
    let features = forward(x, stage);
    let (dims, values) = read(features);
    assert(call_ensures(*forward, (x, stage), features) && call_ensures(
        *read,
        (features,),
        (dims, values),
    ));
    let ghost held = values@;
    let matrix = flatten_features(dims.as_slice(), values).unwrap();
    assert(flat_of(matrix, dims@, held));
    assert(embedded_at(x, stage, *forward, *read, matrix));
    fit_gaussian(&matrix, fit)
}

/// Fréchet inception distance between the batches `a` and `b`, on the features
/// at stage `layer`.
///
/// `forward(x, stage)` gives the features of a batch at a stage of the
/// extractor, and `read` the shape and the values of such features. They are
/// laid out as a matrix with one row for each sample, by
/// [`flatten_features`]; to the rows of each matrix a Gaussian is fitted, by
/// [`fit_gaussian`]; and the distance between the two is taken, by
/// [`fd_normal_nd`], whose failure is handed on whole, as `Trace`. Both
/// batches are taken to the same stage, `a` first.
///
/// An index beyond the chain of stages is refused before anything is asked.
pub fn fid<X, T: Copy, E, V, F, R, M, C, P, D, I, A, B>(
    a: X,
    b: X,
    layer: usize,
    forward: F,
    read: R,
    fit: &Steps<M, C>,
    distance: &crate::fd::Steps<P, D, I, A, B>,
) -> (r: Result<T, Error>) where
    F: Fn(X, Stage) -> X,
    R: Fn(X) -> (Vec<usize>, Vec<T>),
    M: Fn(&Matrix<T>) -> Vec<T>,
    C: Fn(&Matrix<T>, usize, T, usize, T) -> T,
    P: Fn(&Gaussian<T>, &Gaussian<T>) -> Matrix<T>,
    D: Fn(&Matrix<T>) -> Result<E, LinalgError>,
    I: Fn(&E) -> Result<V, LinalgError>,
    A: Fn(&E, &V) -> Matrix<T>,
    B: Fn(&Gaussian<T>, &Gaussian<T>, &Matrix<T>) -> Result<T, LinalgError>,

    requires
        layer < STAGE_COUNT ==> can_fit_at(a, stage_at(layer as nat), forward, read, fit),
        layer < STAGE_COUNT ==> can_fit_at(b, stage_at(layer as nat), forward, read, fit),
        forall|ga: Gaussian<T>, gb: Gaussian<T>|
            layer < STAGE_COUNT && fitted_at(a, stage_at(layer as nat), forward, read, fit, ga)
                && fitted_at(b, stage_at(layer as nat), forward, read, fit, gb)
                ==> #[trigger] can_measure(&ga, &gb, distance),
    ensures
        match r {
            Ok(d) => layer < STAGE_COUNT && measured_at(
                a,
                b,
                stage_at(layer as nat),
                forward,
                read,
                fit,
                distance,
                Ok::<T, crate::fd::Error>(d),
            ),
            Err(Error::Forward(e)) => {
                &&& layer >= STAGE_COUNT
                &&& e == (crate::fid_forward::Error::LayerIndexOutOfBounds { layer })
            },
            Err(Error::Trace(e)) => layer < STAGE_COUNT && measured_at(
                a,
                b,
                stage_at(layer as nat),
                forward,
                read,
                fit,
                distance,
                Err::<T, crate::fd::Error>(e),
            ),
        },
{
    let stage = match Stage::from_index(layer) {
        Ok(stage) => stage,
        Err(e) => {
            return Err(Error::Forward(e));
        },
    };
    let ga = fit_at(a, stage, &forward, &read, fit);
    let gb = fit_at(b, stage, &forward, &read, fit);
    match fd_normal_nd(&ga, &gb, distance) {
        Ok(d) => {
            let r = Ok(d);
            assert(distance_of(&ga, &gb, distance, Ok::<T, crate::fd::Error>(r->Ok_0)));
            r
        },
        Err(e) => {
            let r = Err(Error::Trace(e));
            assert(distance_of(&ga, &gb, distance, Err::<T, crate::fd::Error>(r->Err_0->Trace_0)));
            r
        },
    }
}

} // verus!
