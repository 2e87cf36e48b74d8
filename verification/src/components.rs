//! The data that the simulation acts on.
pub mod particle;
