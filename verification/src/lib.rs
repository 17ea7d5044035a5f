//! The verified frame of a Fréchet distance between two populations of
//! feature embeddings.
//!
//! Each population is summarised by a Gaussian, a mean vector and a covariance
//! matrix, fitted to the features that an extractor yields at one of its
//! stages; the distance combines the two Gaussians.
//!
//! The crate is generic in the element type and never computes with an
//! element: sums, products, roots and eigenvalues are the caller's, handed in
//! as the `Steps` of each module, which hold one closure for each step. What
//! is fixed and proved here is everything around them: which shapes and
//! indices are accepted, what is computed from what and in which order, where
//! each result is put, and which error each failure becomes.
//!
//! The contract of a function therefore speaks of what the steps give:
//! `call_requires(f, args)` reads "`f` can be asked `args`", and
//! `call_ensures(f, args, r)` reads "`f`, asked `args`, can give `r`".

pub mod fd;
pub mod fid;
pub mod fid_forward;
pub mod matrix;
pub mod sqrtm;
