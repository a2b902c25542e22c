//! Dense numeric array and matrix kernels: shape-indexed storage for rank-0..3
//! tensors and 2-D matrices, element-wise arithmetic, reduction kernels in
//! several performance tiers, norms and Euclidean distances, and a reference
//! matrix multiplication, together with a small nearest-neighbour classifier
//! core and a few free-standing utilities.
//!
//! All kernels are generic over [`scalar::Scalar`], an abstract arithmetic
//! element type. The contracts pin every result down to a fold of the trait's
//! abstract operations, so the exact summation order of every kernel tier is
//! part of its specification.

pub mod scalar;
pub mod dims;
pub mod dot;
pub mod dot_simd;
pub mod mul;
pub mod array;
pub mod matrix;
pub mod norms;
pub mod evaluation;
pub mod reverse;
pub mod ngrams;
pub mod popcnt;
pub mod instance;
pub mod knn;
