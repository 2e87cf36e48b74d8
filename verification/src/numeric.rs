//! Fixed-point scalars, integer square roots, plane vectors and the
//! smoothing kernel.
pub mod fixed;
pub mod kernel;
pub mod root;
pub mod vector;
