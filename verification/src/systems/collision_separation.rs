//! Resolving a contact leaves the two discs apart, to within rounding, and
//! bodies that are apart are left alone.
use vstd::prelude::*;
use crate::numeric::fixed::{lemma_trunc_div_bounds, trunc_div, Fixed, LIMIT};
use crate::numeric::root::{
    floor_sqrt, is_floor_sqrt, lemma_floor_sqrt_exists, lemma_square_monotone,
};
use crate::numeric::vector::{dist_sq, lemma_dot_square};
use crate::systems::collision_energy::{lemma_energy_never_grows, lemma_pair_wf};
use crate::systems::collision_system::{
    apart_within, bodies_wf, body_wf, lemma_pass_of_two, overlapping, push_fits, push_x, push_y,
    resolved, resolved_pair, resolved_pass, resolved_row, resolved_rows, valid_restitution, Body,
    SLACK,
};

verus! {

/// The magnitude of `d`.
pub open spec fn magnitude(d: int) -> int {
    if d >= 0 {
        d
    } else {
        -d
    }
}

/// Along one axis: the new offset `x = d + 2 * c`, where `c` is the shift
/// `depth * d / (2 * dist)` rounded toward zero, falls short of the exact
/// `d * reach / dist` by less than two, and points the same way.
proof fn lemma_axis_push(d: int, dist: int, depth: int)
    requires
        dist >= 1,
        depth >= 0,
    ensures
        dist * ((d + 2 * trunc_div(depth * d, 2 * dist)) * d) >= (dist + depth) * (d * d) - (2
            * dist) * magnitude(d),
{
    let c = trunc_div(depth * d, 2 * dist);
    let x = d + 2 * c;
    let num = depth * d;
    let m = 2 * dist;
    let ad = magnitude(d);
    lemma_trunc_div_bounds(num, m);
    if d >= 0 {
        assert(num >= 0) by (nonlinear_arith)
            requires
                num == depth * d,
                depth >= 0,
                d >= 0,
        ;
        assert(dist * x >= (dist + depth) * d - m) by (nonlinear_arith)
            requires
                x == d + 2 * c,
                m == 2 * dist,
                num == depth * d,
                num < (c + 1) * m,
        ;
        assert(dist * (x * d) >= (dist + depth) * (d * d) - m * ad) by (nonlinear_arith)
            requires
                dist * x >= (dist + depth) * d - m,
                d >= 0,
                ad == d,
        ;
    } else {
        assert(num <= 0) by (nonlinear_arith)
            requires
                num == depth * d,
                depth >= 0,
                d < 0,
        ;
        assert(dist * x <= (dist + depth) * d + m) by (nonlinear_arith)
            requires
                x == d + 2 * c,
                m == 2 * dist,
                num == depth * d,
                (c - 1) * m < num,
        ;
        assert(dist * (x * d) >= (dist + depth) * (d * d) - m * ad) by (nonlinear_arith)
            requires
                dist * x <= (dist + depth) * d + m,
                d < 0,
                ad == -d,
        ;
    }
}

/// Twice the rounded-down length of a vector, times the sum of the
/// magnitudes of its components, is at most three times its squared length.
proof fn lemma_rounding_loss(dx: int, dy: int, dist: int)
    requires
        dist >= 0,
        dist * dist <= dx * dx + dy * dy,
    ensures
        (2 * dist) * (magnitude(dx) + magnitude(dy)) <= 3 * (dx * dx + dy * dy),
{
    let d2 = dx * dx + dy * dy;
    let sum = magnitude(dx) + magnitude(dy);
    let lhs = (2 * dist) * sum;
    let rhs = 3 * d2;
    let mx = magnitude(dx);
    let my = magnitude(dy);
    assert(mx * mx == dx * dx) by (nonlinear_arith)
        requires
            mx == dx || mx == -dx,
    ;
    assert(my * my == dy * dy) by (nonlinear_arith)
        requires
            my == dy || my == -dy,
    ;
    assert(sum * sum <= 2 * d2) by (nonlinear_arith)
        requires
            sum == mx + my,
            d2 == dx * dx + dy * dy,
            mx * mx == dx * dx,
            my * my == dy * dy,
    ;
    assert(sum >= 0 && d2 >= 0);
    assert(lhs * lhs <= 8 * (d2 * d2)) by (nonlinear_arith)
        requires
            lhs == (2 * dist) * sum,
            0 <= dist,
            0 <= sum,
            dist * dist <= d2,
            sum * sum <= 2 * d2,
    ;
    if lhs > rhs {
        lemma_square_monotone(rhs + 1, lhs);
        assert((rhs + 1) * (rhs + 1) > 8 * (d2 * d2)) by (nonlinear_arith)
            requires
                rhs == 3 * d2,
                d2 >= 0,
        ;
    }
}

/// After a contact between two bodies at distinct places is resolved, and
/// as long as no coordinate saturates, the centres are no closer than the
/// sum of the radii less `SLACK` raw units.
pub proof fn lemma_pair_separated(a: Body, b: Body, e: Fixed)
    requires
        body_wf(a),
        body_wf(b),
        a.0 != b.0,
        overlapping(a, b) ==> push_fits(a, b),
    ensures
        apart_within(resolved_pair(a, b, e).0, resolved_pair(a, b, e).1, SLACK as int),
{
    let reach = a.2@ + b.2@;
    let gap = reach - SLACK;
    let dx = a.0.x@ - b.0.x@;
    let dy = a.0.y@ - b.0.y@;
    let d2 = dist_sq(a.0, b.0);
    if reach > SLACK {
        if !overlapping(a, b) {
            lemma_square_monotone(gap, reach);
        } else {
            assert(d2 >= 1) by (nonlinear_arith)
                requires
                    d2 == dx * dx + dy * dy,
                    dx != 0 || dy != 0,
            ;
            lemma_floor_sqrt_exists(d2);
            let dist = floor_sqrt(d2);
            assert(dist >= 1) by (nonlinear_arith)
                requires
                    dist >= 0,
                    d2 >= 1,
                    d2 < (dist + 1) * (dist + 1),
            ;
            if dist >= reach {
                lemma_square_monotone(reach, dist);
            }
            let depth = reach - dist;
            let x = dx + 2 * push_x(a, b);
            let y = dy + 2 * push_y(a, b);
            let after = resolved_pair(a, b, e);
            assert(after.0.0.x@ - after.1.0.x@ == x);
            assert(after.0.0.y@ - after.1.0.y@ == y);
            assert(after.0.2 == a.2 && after.1.2 == b.2);
            let len2 = x * x + y * y;
            assert(dist_sq(after.0.0, after.1.0) == len2);
            lemma_axis_push(dx, dist, depth);
            lemma_axis_push(dy, dist, depth);
            lemma_rounding_loss(dx, dy, dist);
            let t = x * dx + y * dy;
            let loss = (2 * dist) * (magnitude(dx) + magnitude(dy));
            assert(dist * t >= reach * d2 - loss) by (nonlinear_arith)
                requires
                    t == x * dx + y * dy,
                    d2 == dx * dx + dy * dy,
                    loss == (2 * dist) * (magnitude(dx) + magnitude(dy)),
                    dist * (x * dx) >= reach * (dx * dx) - (2 * dist) * magnitude(dx),
                    dist * (y * dy) >= reach * (dy * dy) - (2 * dist) * magnitude(dy),
            ;
            let low = gap * d2;
            assert(dist * t >= low && low >= 0) by (nonlinear_arith)
                requires
                    dist * t >= reach * d2 - loss,
                    loss <= 3 * d2,
                    low == (reach - 3) * d2,
                    reach > 3,
                    d2 >= 0,
            ;
            lemma_square_monotone(low, dist * t);
            lemma_dot_square(x, y, dx, dy);
            let dd = dist * dist;
            assert(dd * (len2 * d2) >= (gap * gap * d2) * d2) by (nonlinear_arith)
                requires
                    dd == dist * dist,
                    len2 * d2 >= t * t,
                    low * low <= (dist * t) * (dist * t),
                    low == gap * d2,
            ;
            assert(dd * len2 >= gap * gap * d2) by (nonlinear_arith)
                requires
                    dd * (len2 * d2) >= (gap * gap * d2) * d2,
                    d2 >= 1,
            ;
            assert(len2 >= gap * gap) by (nonlinear_arith)
                requires
                    dd * len2 >= gap * gap * d2,
                    d2 >= dd,
                    dd == dist * dist,
                    dist >= 1,
            ;
        }
    }
}

/// The shift that parts an overlapping pair is, along each axis, no more
/// than half the penetration depth.
proof fn lemma_push_small(a: Body, b: Body)
    requires
        body_wf(a),
        body_wf(b),
        a.0 != b.0,
        overlapping(a, b),
    ensures
        2 * magnitude(push_x(a, b)) <= a.2@ + b.2@ - floor_sqrt(dist_sq(a.0, b.0)),
        2 * magnitude(push_y(a, b)) <= a.2@ + b.2@ - floor_sqrt(dist_sq(a.0, b.0)),
        1 <= floor_sqrt(dist_sq(a.0, b.0)) < a.2@ + b.2@,
        is_floor_sqrt(dist_sq(a.0, b.0), floor_sqrt(dist_sq(a.0, b.0))),
{
    let reach = a.2@ + b.2@;
    let dx = a.0.x@ - b.0.x@;
    let dy = a.0.y@ - b.0.y@;
    let d2 = dist_sq(a.0, b.0);
    assert(d2 >= 1) by (nonlinear_arith)
        requires
            d2 == dx * dx + dy * dy,
            dx != 0 || dy != 0,
    ;
    lemma_floor_sqrt_exists(d2);
    let dist = floor_sqrt(d2);
    assert(dist >= 1) by (nonlinear_arith)
        requires
            dist >= 0,
            d2 >= 1,
            d2 < (dist + 1) * (dist + 1),
    ;
    if dist >= reach {
        lemma_square_monotone(reach, dist);
    }
    let depth = reach - dist;
    assert(-dist <= dx <= dist && -dist <= dy <= dist) by (nonlinear_arith)
        requires
            dx * dx + dy * dy < (dist + 1) * (dist + 1),
            dist >= 0,
    ;
    lemma_axis_shift(dx, dist, depth);
    lemma_axis_shift(dy, dist, depth);
}

/// Along one axis, twice the shift is no more than the depth.
proof fn lemma_axis_shift(d: int, dist: int, depth: int)
    requires
        dist >= 1,
        depth >= 0,
        -dist <= d <= dist,
    ensures
        2 * magnitude(trunc_div(depth * d, 2 * dist)) <= depth,
{
    let c = trunc_div(depth * d, 2 * dist);
    let num = depth * d;
    lemma_trunc_div_bounds(num, 2 * dist);
    if d >= 0 {
        assert(0 <= num <= depth * dist) by (nonlinear_arith)
            requires
                num == depth * d,
                0 <= d <= dist,
                depth >= 0,
        ;
        assert(2 * c <= depth) by (nonlinear_arith)
            requires
                c * (2 * dist) <= num,
                num <= depth * dist,
                dist >= 1,
        ;
    } else {
        assert(0 >= num >= -(depth * dist)) by (nonlinear_arith)
            requires
                num == depth * d,
                -dist <= d < 0,
                depth >= 0,
        ;
        assert(2 * c >= -depth) by (nonlinear_arith)
            requires
                c * (2 * dist) >= num,
                num >= -(depth * dist),
                dist >= 1,
        ;
    }
}

/// Whether the centre of `t` is within `m` of the centre of `s` along each
/// axis.
pub open spec fn moved_within(t: Body, s: Body, m: int) -> bool {
    &&& -m <= t.0.x@ - s.0.x@ <= m
    &&& -m <= t.0.y@ - s.0.y@ <= m
}

/// Whether the centre of `s` is at least `m` away from the limit along each
/// axis.
pub open spec fn room_to_move(s: Body, m: int) -> bool {
    &&& -LIMIT + m <= s.0.x@ <= LIMIT - m
    &&& -LIMIT + m <= s.0.y@ <= LIMIT - m
}

/// How far the passes so far can have moved a centre along an axis: the
/// first by no more than the sum of the radii, each later one by one raw
/// unit.
pub open spec fn drift(reach: int, passes: int) -> int {
    if passes <= 0 {
        0
    } else {
        reach + passes - 1
    }
}

/// What holds of two bodies larger than the slack after each pass.
proof fn lemma_two_bodies_step(s: Seq<Body>, passes: int, total: int, e: Fixed)
    requires
        s.len() == 2,
        bodies_wf(s),
        valid_restitution(e),
        s[0].0 != s[1].0,
        0 <= passes <= total,
        s[0].2@ + s[1].2@ > SLACK,
        room_to_move(s[0], s[0].2@ + s[1].2@ + total),
        room_to_move(s[1], s[0].2@ + s[1].2@ + total),
    ensures
        ({
            let t = resolved(s, passes, e);
            &&& t.len() == 2
            &&& bodies_wf(t)
            &&& t[0].2 == s[0].2
            &&& t[1].2 == s[1].2
            &&& t[0].0 != t[1].0
            &&& moved_within(t[0], s[0], drift(s[0].2@ + s[1].2@, passes))
            &&& moved_within(t[1], s[1], drift(s[0].2@ + s[1].2@, passes))
            &&& passes >= 1 ==> apart_within(t[0], t[1], SLACK as int)
        }),
    decreases passes,
{
    if passes > 0 {
        lemma_two_bodies_step(s, passes - 1, total, e);
        let reach = s[0].2@ + s[1].2@;
        let t = resolved(s, passes - 1, e);
        let a = t[0];
        let b = t[1];
        lemma_pass_of_two(t, e);
        lemma_pair_wf(a, b, e);
        let r = resolved_pair(a, b, e);
        let after = resolved(s, passes, e);
        assert(after == resolved_pass(t, e));
        assert(after[0] == r.0 && after[1] == r.1);
        if overlapping(a, b) {
            lemma_push_small(a, b);
            let dist = floor_sqrt(dist_sq(a.0, b.0));
            if passes > 1 {
                // The pair is already apart to within the slack, so the
                // depth is no more than the slack.
                if dist < reach - SLACK {
                    lemma_square_monotone(dist + 1, reach - SLACK);
                }
                assert(reach - dist <= SLACK);
            }
            assert(push_fits(a, b));
        }
        lemma_pair_separated(a, b, e);
        let gap = reach - SLACK;
        assert(gap * gap >= 1) by (nonlinear_arith)
            requires
                gap >= 1,
        ;
        if r.0.0 == r.1.0 {
            assert(dist_sq(r.0.0, r.1.0) == 0) by (nonlinear_arith)
                requires
                    dist_sq(r.0.0, r.1.0) == (r.0.0.x@ - r.1.0.x@) * (r.0.0.x@ - r.1.0.x@) + (
                    r.0.0.y@ - r.1.0.y@) * (r.0.0.y@ - r.1.0.y@),
                    r.0.0.x@ - r.1.0.x@ == 0,
                    r.0.0.y@ - r.1.0.y@ == 0,
            ;
        }
    }
}

/// Two bodies at distinct places, with room to move before any coordinate
/// saturates, are apart to within `SLACK` raw units after any number of
/// passes from one on: their centres are no closer than the sum of their
/// radii less the slack.
pub proof fn lemma_two_bodies_separated(s: Seq<Body>, substeps: int, e: Fixed)
    requires
        s.len() == 2,
        bodies_wf(s),
        valid_restitution(e),
        s[0].0 != s[1].0,
        substeps >= 1,
        room_to_move(s[0], s[0].2@ + s[1].2@ + substeps),
        room_to_move(s[1], s[0].2@ + s[1].2@ + substeps),
    ensures
        resolved(s, substeps, e).len() == 2,
        apart_within(resolved(s, substeps, e)[0], resolved(s, substeps, e)[1], SLACK as int),
{
    if s[0].2@ + s[1].2@ > SLACK {
        lemma_two_bodies_step(s, substeps, substeps, e);
    } else {
        lemma_energy_never_grows(s, substeps, e);
        let t = resolved(s, substeps, e);
        assert(t[0].2 == s[0].2 && t[1].2 == s[1].2);
    }
}

/// Whether no two bodies of the list overlap.
pub open spec fn none_overlapping(s: Seq<Body>) -> bool {
    forall|i: int, k: int| 0 <= i < k < s.len() ==> !overlapping(#[trigger] s[i], #[trigger] s[k])
}

/// A row of a pass leaves a list without overlaps as it is.
proof fn lemma_clear_row(s: Seq<Body>, i: int, end: int, e: Fixed)
    requires
        none_overlapping(s),
        0 <= i,
        end <= s.len(),
    ensures
        resolved_row(s, i, end, e) == s,
    decreases end - i,
{
    if end > i + 1 {
        lemma_clear_row(s, i, end - 1, e);
        assert(!overlapping(s[i], s[end - 1]));
        assert(s.update(i, s[i]).update(end - 1, s[end - 1]) =~= s);
    }
}

/// The first rows of a pass leave a list without overlaps as it is.
proof fn lemma_clear_rows(s: Seq<Body>, rows: int, e: Fixed)
    requires
        none_overlapping(s),
        rows <= s.len(),
    ensures
        resolved_rows(s, rows, e) == s,
    decreases rows,
{
    if rows > 0 {
        lemma_clear_rows(s, rows - 1, e);
        lemma_clear_row(s, rows - 1, s.len() as int, e);
    }
}

/// Bodies of which no two overlap are left exactly as they are, however
/// many passes are run: once the bodies are apart, more passes change
/// nothing.
pub proof fn lemma_clear_list_unchanged(s: Seq<Body>, substeps: int, e: Fixed)
    requires
        none_overlapping(s),
    ensures
        resolved(s, substeps, e) == s,
    decreases substeps,
{
    if substeps > 0 {
        lemma_clear_list_unchanged(s, substeps - 1, e);
        lemma_clear_rows(s, s.len() as int, e);
    }
}

} // verus!
