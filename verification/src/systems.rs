//! The stages of a simulation tick.
pub mod boundary_system;
pub mod collision_energy;
pub mod collision_separation;
pub mod collision_system;
pub mod force_system;
pub mod integration_system;
pub mod particle_spawner_system;
pub mod update_system;
