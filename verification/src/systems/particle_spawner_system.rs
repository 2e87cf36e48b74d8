//! The cadence at which new particles enter the simulation.
//!
//! Time is gathered tick by tick. Whenever a twentieth of a second has gone
//! by, the gathered time starts again from zero and a batch of four
//! particles is due: one below the other, ten units apart, each moving to the
//! right and downward, the lower ones faster.
use vstd::prelude::*;
use crate::components::particle::{spawned, Particle};
use crate::numeric::fixed::{fixed, Fixed, SCALE};
use crate::numeric::vector::{vec2, Vec2};

verus! {

/// The time between two batches: a twentieth of a second.
pub const SPAWN_INTERVAL: i64 = 50_000;

/// The number of particles in a batch.
pub const BATCH: usize = 4;

/// The radius of a spawned particle: five units.
pub const SPAWN_RADIUS: i64 = 5_000_000;

/// Whether a batch is due once `delta_time` is added to the gathered time.
pub open spec fn batch_due(elapsed: Fixed, delta_time: Fixed) -> bool {
    fixed(elapsed@ + delta_time@)@ >= SPAWN_INTERVAL
}

/// The `i`-th particle of a batch spawned in a tick of length `delta_time`.
pub open spec fn batch_particle(i: int, delta_time: Fixed) -> Particle {
    spawned(
        vec2(0, -(10 * SCALE) * i),
        vec2(300 * SCALE, -(100 * SCALE) - (10 * SCALE) * i),
        fixed(SPAWN_RADIUS as int),
        delta_time,
    )
}

/// The particles that are due after a tick of length `delta_time`.
pub open spec fn batch_after(elapsed: Fixed, delta_time: Fixed) -> Seq<Particle> {
    if batch_due(elapsed, delta_time) {
        Seq::new(BATCH as nat, |i: int| batch_particle(i, delta_time))
    } else {
        Seq::empty()
    }
}

/// The gathered time after a tick of length `delta_time`.
pub open spec fn elapsed_after(elapsed: Fixed, delta_time: Fixed) -> Fixed {
    if batch_due(elapsed, delta_time) {
        fixed(0)
    } else {
        fixed(elapsed@ + delta_time@)
    }
}

/// Adds `delta_time` to the gathered time and returns the particles that
/// are due: a batch if the interval has gone by, in which case the gathered
/// time starts again from zero, and none otherwise.
pub fn particle_spawner_system(elapsed: &mut Fixed, delta_time: Fixed) -> (batch: Vec<Particle>)
    requires
        old(elapsed).wf(),
        delta_time.wf(),
    ensures
        *final(elapsed) == elapsed_after(*old(elapsed), delta_time),
        final(elapsed).wf(),
        batch@ == batch_after(*old(elapsed), delta_time),
        forall|i: int| 0 <= i < batch@.len() ==> (#[trigger] batch@[i]).wf(),
{
    let mut batch: Vec<Particle> = Vec::new();
    *elapsed = elapsed.add(delta_time);
    if elapsed.raw >= SPAWN_INTERVAL {
        *elapsed = Fixed::zero();
        let radius: Fixed = Fixed::from_raw(SPAWN_RADIUS);
        let mut i: usize = 0;
        while i < BATCH
            invariant
                i <= BATCH,
                delta_time.wf(),
                radius == fixed(SPAWN_RADIUS as int),
                batch@.len() == i,
                forall|k: int| 0 <= k < i ==> #[trigger] batch@[k] == batch_particle(k, delta_time),
                forall|k: int| 0 <= k < i ==> (#[trigger] batch@[k]).wf(),
            decreases BATCH - i,
        {
            let step: i64 = 10 * SCALE * (i as i64);
            let position = Vec2::new(Fixed::zero(), Fixed::from_raw(-step));
            let initial_velocity = Vec2::new(
                Fixed::from_raw(300 * SCALE),
                Fixed::from_raw(-(100 * SCALE) - step),
            );
            match Particle::spawn(position, initial_velocity, radius, delta_time) {
                Some(particle) => {
                    batch.push(particle);
                },
                None => {},
            }
            i = i + 1;
        }
        assert(batch@ =~= batch_after(*old(elapsed), delta_time));
    }
    batch
}

} // verus!
