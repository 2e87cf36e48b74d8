//! What is fixed before a run starts.
pub mod simulation_parameters;
