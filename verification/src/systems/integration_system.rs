//! Advancing a particle by one tick, in one of two schemes.
use vstd::prelude::*;
use crate::components::particle::Particle;
use crate::initialisation::simulation_parameters::IntegrationScheme;
use crate::numeric::fixed::{
    clamp, lemma_mul_bound, lemma_trunc_div_bounds, trunc_div, Fixed, LIMIT, SCALE,
};
use crate::numeric::vector::{shifted, vec2, Vec2};

verus! {

/// One coordinate after a Verlet step: the last displacement is repeated and
/// `a * dt * dt` is added, rounded toward zero once.
pub open spec fn verlet_coordinate(pos: int, previous: int, acc: int, dt: int) -> int {
    pos + (pos - previous) + trunc_div(acc * dt * dt, SCALE * SCALE)
}

/// The particle after a Verlet step of length `dt`: the position moves on,
/// the old position is remembered and the acceleration is spent.
pub open spec fn verlet_step(p: Particle, dt: Fixed) -> Particle {
    Particle {
        position: vec2(
            verlet_coordinate(p.position.x@, p.previous_position.x@, p.acceleration.x@, dt@),
            verlet_coordinate(p.position.y@, p.previous_position.y@, p.acceleration.y@, dt@),
        ),
        previous_position: p.position,
        acceleration: vec2(0, 0),
        ..p
    }
}

/// The particle after a semi-implicit Euler step of length `dt`: the
/// velocity takes up the acceleration, then the new velocity moves the
/// position, and the acceleration is spent.
pub open spec fn euler_step(p: Particle, dt: Fixed) -> Particle {
    let velocity = shifted(p.velocity, p.acceleration, dt@);
    Particle {
        position: shifted(p.position, velocity, dt@),
        velocity,
        acceleration: vec2(0, 0),
        ..p
    }
}

/// The particle after one step of the given scheme.
pub open spec fn integrated(p: Particle, scheme: IntegrationScheme, dt: Fixed) -> Particle {
    match scheme {
        IntegrationScheme::SemiImplicitEuler => euler_step(p, dt),
        IntegrationScheme::Verlet => verlet_step(p, dt),
    }
}

/// A particle at rest, with no acceleration, stays where it is under a
/// Verlet step, whatever the length of the tick.
pub proof fn lemma_verlet_rest(p: Particle, dt: Fixed)
    requires
        p.wf(),
        p.acceleration == vec2(0, 0),
        p.previous_position == p.position,
    ensures
        verlet_step(p, dt).position == p.position,
        verlet_step(p, dt) == p,
{
    assert(0 * dt@ * dt@ == 0) by (nonlinear_arith);
    assert(trunc_div(0, SCALE * SCALE) == 0);
}

/// One coordinate of a Verlet step.
fn verlet_axis(pos: Fixed, previous: Fixed, acc: Fixed, dt: Fixed) -> (r: Fixed)
    requires
        pos.wf(),
        previous.wf(),
        acc.wf(),
        dt.wf(),
    ensures
        r@ == clamp(verlet_coordinate(pos@, previous@, acc@, dt@)),
        r.wf(),
{
    proof {
        lemma_mul_bound(acc@, dt@, LIMIT as int, LIMIT as int);
        lemma_mul_bound(acc@ * dt@, dt@, LIMIT * LIMIT, LIMIT as int);
        lemma_trunc_div_bounds(acc@ * dt@ * dt@, SCALE * SCALE);
    }
    let push: i128 = ((acc.raw as i128) * (dt.raw as i128) * (dt.raw as i128)) / ((SCALE as i128)
        * (SCALE as i128));
    let here: i128 = pos.raw as i128;
    Fixed::from_wide(here + (here - previous.raw as i128) + push)
}

/// Advances the particle by one Verlet step of length `delta_time`.
pub fn update_position(particle: &mut Particle, delta_time: Fixed)
    requires
        old(particle).wf(),
        delta_time.wf(),
    ensures
        *final(particle) == verlet_step(*old(particle), delta_time),
        final(particle).wf(),
        old(particle).acceleration == vec2(0, 0) && old(particle).previous_position == old(
            particle,
        ).position ==> final(particle).position == old(particle).position,
{
    proof {
        if particle.acceleration == vec2(0, 0) && particle.previous_position == particle.position {
            lemma_verlet_rest(*particle, delta_time);
        }
    }
    let current_position = particle.position;
    let new_position = Vec2 {
        x: verlet_axis(
            current_position.x,
            particle.previous_position.x,
            particle.acceleration.x,
            delta_time,
        ),
        y: verlet_axis(
            current_position.y,
            particle.previous_position.y,
            particle.acceleration.y,
            delta_time,
        ),
    };
    particle.previous_position = current_position;
    particle.position = new_position;
    particle.acceleration = Vec2::zero();
}

/// Advances the particle by one semi-implicit Euler step of length
/// `delta_time`.
pub fn update_position_with_velocity(particle: &mut Particle, delta_time: Fixed)
    requires
        old(particle).wf(),
        delta_time.wf(),
    ensures
        *final(particle) == euler_step(*old(particle), delta_time),
        final(particle).wf(),
{
    let velocity = particle.velocity.add_scaled(particle.acceleration, delta_time);
    particle.position = particle.position.add_scaled(velocity, delta_time);
    particle.velocity = velocity;
    particle.acceleration = Vec2::zero();
}

/// Advances the particle by one step of the given scheme.
pub fn integrate(particle: &mut Particle, scheme: IntegrationScheme, delta_time: Fixed)
    requires
        old(particle).wf(),
        delta_time.wf(),
    ensures
        *final(particle) == integrated(*old(particle), scheme, delta_time),
        final(particle).wf(),
{
    match scheme {
        IntegrationScheme::SemiImplicitEuler => update_position_with_velocity(particle, delta_time),
        IntegrationScheme::Verlet => update_position(particle, delta_time),
    }
}

} // verus!
