//! Operations on weight matrices.

pub mod hc;
pub mod matmul;
