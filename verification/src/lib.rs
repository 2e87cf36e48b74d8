//! A deterministic two-dimensional particle simulation over fixed-point numbers.
//!
//! Every quantity is a [`numeric::fixed::Fixed`]: a whole number of millionths,
//! kept within one million units of zero. Each formula of the simulation is
//! given one exact integer meaning, so that a run is reproducible bit for bit
//! and its properties can be proved rather than observed.
pub mod components;
pub mod initialisation;
pub mod numeric;
pub mod systems;
