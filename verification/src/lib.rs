//! Dot-product kernels over slices of any scalar type: a sequential baseline,
//! unrolled variants with independent accumulators, and lane-wise variants that
//! split their input into a prefix of whole chunks and a sequential remainder.
//!
//! Each kernel fixes the order in which it multiplies and adds, and its
//! contract states the result in exactly that order.
pub mod arith;
pub mod blas;
pub mod fused;
pub mod integers;
pub mod lane;
pub mod laws;
pub mod reduce;
pub mod scalar;
pub mod split;
pub mod unrolled;
pub mod wide;

pub use arith::Scalar;
pub use fused::dot_neon;
pub use scalar::dot;
pub use split::split_index;
pub use unrolled::{dot_unrolled4, dot_unrolled8};
pub use wide::{dot_stdsimd4, dot_stdsimd8};
