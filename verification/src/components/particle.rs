//! One simulated disc.
use vstd::prelude::*;
use crate::numeric::fixed::{fixed, Fixed};
use crate::numeric::vector::{shifted, vec2, Vec2};
use crate::systems::collision_system::Body;

verus! {

/// A disc that moves in the plane.
///
/// A run keeps either `velocity` or `previous_position` meaningful, as its
/// integration scheme asks; `acceleration` gathers the forces of one tick and
/// `density` is what the density field last measured at the disc.
#[derive(Clone, Copy, Debug, PartialEq, Eq, Structural)]
pub struct Particle {
    pub position: Vec2,
    pub previous_position: Vec2,
    pub velocity: Vec2,
    pub acceleration: Vec2,
    pub radius: Fixed,
    pub density: Fixed,
}

/// The particle that a spawn request gives: at rest in its forces, with the
/// previous position that the initial velocity implies over one tick of
/// length `delta_time`.
pub open spec fn spawned(position: Vec2, initial_velocity: Vec2, radius: Fixed, delta_time: Fixed)
    -> Particle {
    Particle {
        position,
        previous_position: shifted(position, initial_velocity, -delta_time@),
        velocity: initial_velocity,
        acceleration: vec2(0, 0),
        radius,
        density: fixed(0),
    }
}

impl Particle {
    /// Whether every number lies within the limit and the radius is positive.
    pub open spec fn wf(self) -> bool {
        &&& self.position.wf()
        &&& self.previous_position.wf()
        &&& self.velocity.wf()
        &&& self.acceleration.wf()
        &&& self.radius.wf()
        &&& self.density.wf()
        &&& self.radius@ > 0
    }

    /// What collision resolution reads of the particle.
    pub open spec fn body(self) -> Body {
        (self.position, self.velocity, self.radius)
    }

    /// Whether every number lies within the limit and the radius is positive.
    pub fn is_valid(&self) -> (ok: bool)
        ensures
            ok == self.wf(),
    {
        self.position.is_valid() && self.previous_position.is_valid() && self.velocity.is_valid()
            && self.acceleration.is_valid() && self.radius.is_valid() && self.density.is_valid()
            && self.radius.raw > 0
    }

    /// Makes the particle of a spawn request, or nothing if the radius is
    /// not positive.
    pub fn spawn(position: Vec2, initial_velocity: Vec2, radius: Fixed, delta_time: Fixed) -> (r:
        Option<Particle>)
        requires
            position.wf(),
            initial_velocity.wf(),
            radius.wf(),
            delta_time.wf(),
        ensures
            r is Some <==> radius@ > 0,
            r is Some ==> r->0 == spawned(position, initial_velocity, radius, delta_time),
            r is Some ==> r->0.wf(),
    {
        if radius.raw <= 0 {
            return None;
        }
        Some(
            Particle {
                position,
                previous_position: position.add_scaled(initial_velocity, delta_time.neg()),
                velocity: initial_velocity,
                acceleration: Vec2::zero(),
                radius,
                density: Fixed::zero(),
            },
        )
    }
}

} // verus!
