//! A small n-dimensional array engine: strided views over a flat numeric
//! buffer, with broadcasting arithmetic and batched matrix multiplication,
//! and thin matrix and column-vector types on top of it.

pub mod matrix;
pub mod tensor;
pub mod vector;
