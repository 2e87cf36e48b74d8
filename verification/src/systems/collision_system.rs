//! Detection and resolution of overlapping pairs of discs.
//!
//! A body is a position, a velocity and a radius. The radius also weighs the
//! body when an impulse is shared out between the two bodies of a pair.
use vstd::prelude::*;
use crate::numeric::fixed::{
    lemma_mul_bound, lemma_trunc_div_bounds, trunc_div, Fixed, LIMIT, SCALE,
};
use crate::numeric::root::{floor_sqrt, isqrt, lemma_square_strict};
use crate::numeric::vector::{dist_sq, normal_x, normal_y, vec2, Vec2};
use crate::systems::collision_energy::{lemma_energy_never_grows, lemma_pair_energy};
use crate::systems::collision_separation::lemma_pair_separated;

verus! {

/// Position, velocity and radius of one disc.
pub type Body = (Vec2, Vec2, Fixed);

/// Whether the body's numbers lie within the limit and its radius is positive.
pub open spec fn body_wf(b: Body) -> bool {
    b.0.wf() && b.1.wf() && b.2.wf() && b.2@ > 0
}

/// Whether every body of the list is well formed.
pub open spec fn bodies_wf(s: Seq<Body>) -> bool {
    forall|i: int| 0 <= i < s.len() ==> body_wf(#[trigger] s[i])
}

/// Whether `e` is a fraction between zero and one.
pub open spec fn valid_restitution(e: Fixed) -> bool {
    0 <= e@ <= SCALE
}

/// Whether the two discs intersect: their centres are closer than the sum of
/// their radii.
pub open spec fn overlapping(a: Body, b: Body) -> bool {
    dist_sq(a.0, b.0) < (a.2@ + b.2@) * (a.2@ + b.2@)
}

/// The x component of the shift that moves `a` away from `b` by half the
/// penetration depth; `b` moves by the opposite. The centre distance is
/// rounded down, the shift toward zero.
pub open spec fn push_x(a: Body, b: Body) -> int {
    let dist = floor_sqrt(dist_sq(a.0, b.0));
    trunc_div((a.2@ + b.2@ - dist) * (a.0.x@ - b.0.x@), 2 * dist)
}

/// The y component of the shift that moves `a` away from `b`.
pub open spec fn push_y(a: Body, b: Body) -> int {
    let dist = floor_sqrt(dist_sq(a.0, b.0));
    trunc_div((a.2@ + b.2@ - dist) * (a.0.y@ - b.0.y@), 2 * dist)
}

/// The velocity of `a` relative to `b` along the normal from `b` to `a`,
/// times `SCALE`. Positive when the bodies move apart.
pub open spec fn normal_speed(a: Body, b: Body) -> int {
    (a.1.x@ - b.1.x@) * normal_x(a.0, b.0) + (a.1.y@ - b.1.y@) * normal_y(a.0, b.0)
}

/// The change of relative normal velocity that the impulse brings about:
/// `(1 + e)` times the closing speed, rounded down.
pub open spec fn exchange(a: Body, b: Body, e: Fixed) -> int {
    ((SCALE + e@) * (-normal_speed(a, b))) / (SCALE * SCALE)
}

/// One velocity component after the impulse: `v + t * n * other / (reach * SCALE)`
/// rounded toward zero, where `reach` is the sum of the radii and `other` the
/// radius of the other body.
pub open spec fn kicked(v: int, t: int, n: int, other: int, reach: int) -> int {
    trunc_div(v * (reach * SCALE) + t * other * n, reach * SCALE)
}

/// The two bodies after their contact is resolved with restitution `e`.
///
/// Bodies that do not overlap, or whose centres coincide, are left as they
/// are. Otherwise both are shifted apart; and unless they already move apart,
/// an impulse along the normal is shared between them in inverse proportion
/// to their radii.
pub open spec fn resolved_pair(a: Body, b: Body, e: Fixed) -> (Body, Body) {
    if !overlapping(a, b) || a.0 == b.0 {
        (a, b)
    } else {
        let pa = vec2(a.0.x@ + push_x(a, b), a.0.y@ + push_y(a, b));
        let pb = vec2(b.0.x@ - push_x(a, b), b.0.y@ - push_y(a, b));
        if normal_speed(a, b) > 0 {
            ((pa, a.1, a.2), (pb, b.1, b.2))
        } else {
            let t = exchange(a, b, e);
            let nx = normal_x(a.0, b.0);
            let ny = normal_y(a.0, b.0);
            let reach = a.2@ + b.2@;
            let va = vec2(kicked(a.1.x@, t, nx, b.2@, reach), kicked(a.1.y@, t, ny, b.2@, reach));
            let vb = vec2(
                kicked(b.1.x@, -t, nx, a.2@, reach),
                kicked(b.1.y@, -t, ny, a.2@, reach),
            );
            ((pa, va, a.2), (pb, vb, b.2))
        }
    }
}

/// The most, in raw units, by which rounding can leave a resolved pair
/// short of touching.
pub const SLACK: i64 = 3;

/// Whether the centres are no closer than the sum of the radii less `slack`.
pub open spec fn apart_within(a: Body, b: Body, slack: int) -> bool {
    let reach = a.2@ + b.2@;
    reach <= slack || dist_sq(a.0, b.0) >= (reach - slack) * (reach - slack)
}

/// Whether both bodies stay within the limit when shifted apart, so that no
/// coordinate saturates.
pub open spec fn push_fits(a: Body, b: Body) -> bool {
    &&& -LIMIT <= a.0.x@ + push_x(a, b) <= LIMIT
    &&& -LIMIT <= a.0.y@ + push_y(a, b) <= LIMIT
    &&& -LIMIT <= b.0.x@ - push_x(a, b) <= LIMIT
    &&& -LIMIT <= b.0.y@ - push_y(a, b) <= LIMIT
}

/// Twice the kinetic energy of one body: its radius times its squared speed.
pub open spec fn body_energy(b: Body) -> int {
    b.2@ * (b.1.x@ * b.1.x@ + b.1.y@ * b.1.y@)
}

/// Twice the total kinetic energy of the bodies.
pub open spec fn doubled_kinetic_energy(s: Seq<Body>) -> int
    decreases s.len(),
{
    if s.len() == 0 {
        0
    } else {
        doubled_kinetic_energy(s.drop_last()) + body_energy(s.last())
    }
}

/// The list after the contact between its bodies `i` and `k` is resolved.
pub open spec fn with_pair_resolved(s: Seq<Body>, i: int, k: int, e: Fixed) -> Seq<Body> {
    let r = resolved_pair(s[i], s[k], e);
    s.update(i, r.0).update(k, r.1)
}

/// The list after body `i` has met, in turn, each body from `i + 1` up to but
/// not including `end`.
pub open spec fn resolved_row(s: Seq<Body>, i: int, end: int, e: Fixed) -> Seq<Body>
    decreases end - i,
{
    if end <= i + 1 {
        s
    } else {
        with_pair_resolved(resolved_row(s, i, end - 1, e), i, end - 1, e)
    }
}

/// The list after each of the first `rows` bodies has met, in turn, every
/// body behind it.
pub open spec fn resolved_rows(s: Seq<Body>, rows: int, e: Fixed) -> Seq<Body>
    decreases rows,
{
    if rows <= 0 {
        s
    } else {
        resolved_row(resolved_rows(s, rows - 1, e), rows - 1, s.len() as int, e)
    }
}

/// The list after one pass over every pair `(i, k)` with `i < k`, in
/// increasing order of `i` and then of `k`. Each pair sees what the pairs
/// before it have left.
pub open spec fn resolved_pass(s: Seq<Body>, e: Fixed) -> Seq<Body> {
    resolved_rows(s, s.len() as int, e)
}

/// The list after `substeps` passes.
pub open spec fn resolved(s: Seq<Body>, substeps: int, e: Fixed) -> Seq<Body>
    decreases substeps,
{
    if substeps <= 0 {
        s
    } else {
        resolved_pass(resolved(s, substeps - 1, e), e)
    }
}

/// Two overlapping bodies that already move apart are shifted apart, and
/// both keep their velocities: the impulse is for bodies that approach.
pub proof fn lemma_separating_pair_keeps_velocities(a: Body, b: Body, e: Fixed)
    requires
        overlapping(a, b),
        a.0 != b.0,
        normal_speed(a, b) > 0,
    ensures
        resolved_pair(a, b, e).0.1 == a.1,
        resolved_pair(a, b, e).1.1 == b.1,
        resolved_pair(a, b, e).0.0 == vec2(a.0.x@ + push_x(a, b), a.0.y@ + push_y(a, b)),
        resolved_pair(a, b, e).1.0 == vec2(b.0.x@ - push_x(a, b), b.0.y@ - push_y(a, b)),
{
}

/// One pass over a list of two bodies resolves their one contact.
pub proof fn lemma_pass_of_two(s: Seq<Body>, e: Fixed)
    requires
        s.len() == 2,
    ensures
        resolved_pass(s, e) == seq![
            resolved_pair(s[0], s[1], e).0,
            resolved_pair(s[0], s[1], e).1,
        ],
{
    reveal_with_fuel(resolved_rows, 3);
    reveal_with_fuel(resolved_row, 3);
    let r = resolved_pair(s[0], s[1], e);
    assert(resolved_row(s, 0, 2, e) == with_pair_resolved(s, 0, 1, e));
    assert(resolved_rows(s, 1, e) == with_pair_resolved(s, 0, 1, e));
    assert(with_pair_resolved(s, 0, 1, e) =~= seq![r.0, r.1]);
}

/// Resolves the contact between two bodies with restitution `restitution`.
pub fn resolve_pair(a: Body, b: Body, restitution: Fixed) -> (r: (Body, Body))
    requires
        body_wf(a),
        body_wf(b),
        valid_restitution(restitution),
    ensures
        r == resolved_pair(a, b, restitution),
        body_wf(r.0),
        body_wf(r.1),
        body_energy(r.0) + body_energy(r.1) <= body_energy(a) + body_energy(b),
        a.0 != b.0 && (overlapping(a, b) ==> push_fits(a, b)) ==> apart_within(
            r.0,
            r.1,
            SLACK as int,
        ),
{
    proof {
        lemma_pair_energy(a, b, restitution);
        if a.0 != b.0 && (overlapping(a, b) ==> push_fits(a, b)) {
            lemma_pair_separated(a, b, restitution);
        }
    }
    let dx: i128 = a.0.x.raw as i128 - b.0.x.raw as i128;
    let dy: i128 = a.0.y.raw as i128 - b.0.y.raw as i128;
    let reach: i128 = a.2.raw as i128 + b.2.raw as i128;
    proof {
        lemma_mul_bound(dx as int, dx as int, 2 * LIMIT, 2 * LIMIT);
        lemma_mul_bound(dy as int, dy as int, 2 * LIMIT, 2 * LIMIT);
        lemma_mul_bound(reach as int, reach as int, 2 * LIMIT, 2 * LIMIT);
        assert(dx * dx >= 0 && dy * dy >= 0) by (nonlinear_arith);
    }
    let d2: i128 = dx * dx + dy * dy;
    if d2 >= reach * reach || (dx == 0 && dy == 0) {
        return (a, b);
    }
    assert(a.0 != b.0);
    proof {
        assert(d2 >= 1) by (nonlinear_arith)
            requires
                d2 == dx * dx + dy * dy,
                dx != 0 || dy != 0,
        ;
    }
    let dist: i128 = isqrt(d2 as u128) as i128;
    proof {
        lemma_square_strict(dist as int, reach as int);
        assert(dist >= 1) by (nonlinear_arith)
            requires
                dist >= 0,
                d2 >= 1,
                d2 < (dist + 1) * (dist + 1),
        ;
    }
    let depth: i128 = reach - dist;
    proof {
        lemma_mul_bound(depth as int, dx as int, 2 * LIMIT, 2 * LIMIT);
        lemma_mul_bound(depth as int, dy as int, 2 * LIMIT, 2 * LIMIT);
        lemma_trunc_div_bounds(depth * dx, 2 * dist);
        lemma_trunc_div_bounds(depth * dy, 2 * dist);
    }
    let cx: i128 = (depth * dx) / (2 * dist);
    let cy: i128 = (depth * dy) / (2 * dist);
    let pa = Vec2 {
        x: Fixed::from_wide(a.0.x.raw as i128 + cx),
        y: Fixed::from_wide(a.0.y.raw as i128 + cy),
    };
    let pb = Vec2 {
        x: Fixed::from_wide(b.0.x.raw as i128 - cx),
        y: Fixed::from_wide(b.0.y.raw as i128 - cy),
    };
    let normal: Vec2 = a.0.unit_from(b.0);
    let nx: i128 = normal.x.raw as i128;
    let ny: i128 = normal.y.raw as i128;
    let ux: i128 = a.1.x.raw as i128 - b.1.x.raw as i128;
    let uy: i128 = a.1.y.raw as i128 - b.1.y.raw as i128;
    proof {
        lemma_mul_bound(ux as int, nx as int, 2 * LIMIT, SCALE as int);
        lemma_mul_bound(uy as int, ny as int, 2 * LIMIT, SCALE as int);
    }
    let speed: i128 = ux * nx + uy * ny;
    if speed > 0 {
        return ((pa, a.1, a.2), (pb, b.1, b.2));
    }
    let closing: i128 = -speed;
    let gain: i128 = SCALE as i128 + restitution.raw as i128;
    proof {
        lemma_mul_bound(gain as int, closing as int, 2 * SCALE, 4 * LIMIT * SCALE);
        assert(gain * closing >= 0) by (nonlinear_arith)
            requires
                gain >= 0,
                closing >= 0,
        ;
    }
    let t: i128 = (gain * closing) / ((SCALE as i128) * (SCALE as i128));
    assert(t == exchange(a, b, restitution));
    let den: i128 = reach * (SCALE as i128);
    let ra: i128 = a.2.raw as i128;
    let rb: i128 = b.2.raw as i128;
    proof {
        assert(0 <= t <= 8 * LIMIT);
        lemma_mul_bound(t as int, rb as int, 8 * LIMIT, LIMIT as int);
        lemma_mul_bound(t as int, ra as int, 8 * LIMIT, LIMIT as int);
        lemma_mul_bound(t * rb, nx as int, 8 * LIMIT * LIMIT, SCALE as int);
        lemma_mul_bound(t * rb, ny as int, 8 * LIMIT * LIMIT, SCALE as int);
        lemma_mul_bound(t * ra, nx as int, 8 * LIMIT * LIMIT, SCALE as int);
        lemma_mul_bound(t * ra, ny as int, 8 * LIMIT * LIMIT, SCALE as int);
        lemma_mul_bound(a.1.x@, den as int, LIMIT as int, 2 * LIMIT * SCALE);
        lemma_mul_bound(a.1.y@, den as int, LIMIT as int, 2 * LIMIT * SCALE);
        lemma_mul_bound(b.1.x@, den as int, LIMIT as int, 2 * LIMIT * SCALE);
        lemma_mul_bound(b.1.y@, den as int, LIMIT as int, 2 * LIMIT * SCALE);
        assert((-t) * ra * nx == -(t * ra * nx)) by (nonlinear_arith);
        assert((-t) * ra * ny == -(t * ra * ny)) by (nonlinear_arith);
    }
    let va = Vec2 {
        x: Fixed::from_wide(((a.1.x.raw as i128) * den + t * rb * nx) / den),
        y: Fixed::from_wide(((a.1.y.raw as i128) * den + t * rb * ny) / den),
    };
    let vb = Vec2 {
        x: Fixed::from_wide(((b.1.x.raw as i128) * den - t * ra * nx) / den),
        y: Fixed::from_wide(((b.1.y.raw as i128) * den - t * ra * ny) / den),
    };
    ((pa, va, a.2), (pb, vb, b.2))
}

/// Runs one pass over every pair of bodies, in increasing index order.
pub fn resolve_collisions(particles: &mut Vec<Body>, restitution: Fixed)
    requires
        bodies_wf(old(particles)@),
        valid_restitution(restitution),
    ensures
        final(particles)@ == resolved_pass(old(particles)@, restitution),
        final(particles)@.len() == old(particles)@.len(),
        bodies_wf(final(particles)@),
        doubled_kinetic_energy(final(particles)@) <= doubled_kinetic_energy(old(particles)@),
{
    proof {
        reveal_with_fuel(resolved, 2);
        assert(resolved(old(particles)@, 1, restitution) == resolved_pass(
            old(particles)@,
            restitution,
        ));
        lemma_energy_never_grows(old(particles)@, 1, restitution);
    }
    let object_count: usize = particles.len();
    let mut i: usize = 0;
    while i < object_count
        invariant
            i <= object_count,
            particles@.len() == object_count,
            old(particles)@.len() == object_count,
            bodies_wf(particles@),
            valid_restitution(restitution),
            particles@ == resolved_rows(old(particles)@, i as int, restitution),
        decreases object_count - i,
    {
        let ghost row_start = particles@;
        let mut k: usize = i + 1;
        while k < object_count
            invariant
                i < object_count,
                i + 1 <= k <= object_count,
                particles@.len() == object_count,
                bodies_wf(particles@),
                valid_restitution(restitution),
                particles@ == resolved_row(row_start, i as int, k as int, restitution),
            decreases object_count - k,
        {
            let first: Body = particles[i];
            let second: Body = particles[k];
            let (moved_first, moved_second) = resolve_pair(first, second, restitution);
            particles.set(i, moved_first);
            particles.set(k, moved_second);
            k = k + 1;
        }
        i = i + 1;
    }
}

/// Runs `substeps` passes of pairwise collision resolution over the bodies.
/// A count of zero or less leaves them as they are.
pub fn check_collisions(particles: &mut Vec<Body>, substeps: i32, restitution: Fixed)
    requires
        bodies_wf(old(particles)@),
        valid_restitution(restitution),
    ensures
        final(particles)@ == resolved(old(particles)@, substeps as int, restitution),
        final(particles)@.len() == old(particles)@.len(),
        bodies_wf(final(particles)@),
        doubled_kinetic_energy(final(particles)@) <= doubled_kinetic_energy(old(particles)@),
{
    proof {
        lemma_energy_never_grows(old(particles)@, substeps as int, restitution);
    }
    let mut done: i32 = 0;
    while done < substeps
        invariant
            0 <= done,
            done <= substeps || done == 0,
            bodies_wf(particles@),
            valid_restitution(restitution),
            particles@.len() == old(particles)@.len(),
            particles@ == resolved(old(particles)@, done as int, restitution),
        decreases substeps - done,
    {
        resolve_collisions(particles, restitution);
        done = done + 1;
    }
}

} // verus!
