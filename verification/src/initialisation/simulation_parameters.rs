//! The configuration of a run.
use vstd::prelude::*;
use crate::numeric::fixed::{fixed, Fixed, SCALE};
use crate::numeric::vector::{vec2, Vec2};

verus! {

/// Which forces act on the particles.
#[derive(Clone, Copy, Debug, PartialEq, Eq, Structural)]
pub enum ForceModel {
    /// Gravity alone.
    UniformGravity,
    /// Gravity, and the pressure of a density field that the particles form.
    DensityPressureField,
}

/// How positions are advanced.
#[derive(Clone, Copy, Debug, PartialEq, Eq, Structural)]
pub enum IntegrationScheme {
    /// The velocity is advanced first and then moves the position.
    SemiImplicitEuler,
    /// The last displacement is repeated; no velocity is kept.
    Verlet,
}

/// The shape of the region that holds the particles.
#[derive(Clone, Copy, Debug, PartialEq, Eq, Structural)]
pub enum BoundaryShape {
    /// A circle about the origin, of radius `boundary_radius`.
    Circular,
    /// The box between `min_bound` and `max_bound`.
    Rectangular,
}

/// What a run is configured with. Nothing in the simulation changes it.
#[derive(Clone, Copy, Debug, PartialEq, Eq, Structural)]
pub struct SimulationParameters {
    pub gravity: Vec2,
    pub boundary_shape: BoundaryShape,
    pub boundary_radius: Fixed,
    pub min_bound: Vec2,
    pub max_bound: Vec2,
    pub restitution: Fixed,
    pub smoothing_radius: Fixed,
    pub target_density: Fixed,
    pub pressure_multiplier: Fixed,
    pub force_model: ForceModel,
    pub integration: IntegrationScheme,
    pub substeps: i32,
}

/// The configuration that `SimulationParameters::new` gives.
pub open spec fn default_parameters() -> SimulationParameters {
    SimulationParameters {
        gravity: vec2(0, -628_840_000),
        boundary_shape: BoundaryShape::Rectangular,
        boundary_radius: fixed(400 * SCALE),
        min_bound: vec2(-500 * SCALE, -500 * SCALE),
        max_bound: vec2(500 * SCALE, 500 * SCALE),
        restitution: fixed(800_000),
        smoothing_radius: fixed(10 * SCALE),
        target_density: fixed(1000 * SCALE),
        pressure_multiplier: fixed(2000 * SCALE),
        force_model: ForceModel::UniformGravity,
        integration: IntegrationScheme::Verlet,
        substeps: 8,
    }
}

impl SimulationParameters {
    /// Whether every number lies within the limit, the restitution is a
    /// fraction between zero and one and the smoothing radius is positive.
    pub open spec fn wf(self) -> bool {
        &&& self.gravity.wf()
        &&& self.boundary_radius.wf()
        &&& self.min_bound.wf()
        &&& self.max_bound.wf()
        &&& self.restitution.wf()
        &&& self.smoothing_radius.wf()
        &&& self.target_density.wf()
        &&& self.pressure_multiplier.wf()
        &&& 0 <= self.restitution@ <= SCALE
        &&& self.smoothing_radius@ > 0
    }

    /// Gravity of 628.84 downward, a box of half-width 500 with a
    /// restitution of 0.8, Verlet integration and eight collision passes a
    /// tick; for the density field a smoothing radius of 10, a target density
    /// of 1000 and a pressure multiplier of 2000; a boundary radius of 400
    /// for the circular region.
    pub fn new() -> (r: SimulationParameters)
        ensures
            r == default_parameters(),
            r.wf(),
    {
        SimulationParameters {
            gravity: Vec2::new(Fixed::zero(), Fixed::from_raw(-628_840_000)),
            boundary_shape: BoundaryShape::Rectangular,
            boundary_radius: Fixed::from_units(400),
            min_bound: Vec2::new(Fixed::from_units(-500), Fixed::from_units(-500)),
            max_bound: Vec2::new(Fixed::from_units(500), Fixed::from_units(500)),
            restitution: Fixed::from_raw(800_000),
            smoothing_radius: Fixed::from_units(10),
            target_density: Fixed::from_units(1000),
            pressure_multiplier: Fixed::from_units(2000),
            force_model: ForceModel::UniformGravity,
            integration: IntegrationScheme::Verlet,
            substeps: 8,
        }
    }

    /// Whether the configuration is one that the simulation accepts.
    pub fn is_valid(&self) -> (ok: bool)
        ensures
            ok == self.wf(),
    {
        self.gravity.is_valid() && self.boundary_radius.is_valid() && self.min_bound.is_valid()
            && self.max_bound.is_valid() && self.restitution.is_valid()
            && self.smoothing_radius.is_valid() && self.target_density.is_valid()
            && self.pressure_multiplier.is_valid() && 0 <= self.restitution.raw
            && self.restitution.raw <= SCALE && self.smoothing_radius.raw > 0
    }
}

} // verus!
