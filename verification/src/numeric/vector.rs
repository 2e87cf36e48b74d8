//! Plane vectors with fixed-point components.
use vstd::prelude::*;
use crate::numeric::fixed::{
    fixed, lemma_mul_bound, lemma_trunc_div_bounds, lemma_trunc_square, trunc_div, Fixed, LIMIT,
    SCALE,
};
use crate::numeric::root::{
    ceil_sqrt, floor_sqrt, isqrt_up, lemma_ceil_sqrt_bounds, lemma_floor_sqrt_exists,
};

verus! {

/// A point or displacement in the plane.
#[derive(Clone, Copy, Debug, PartialEq, Eq, Structural)]
pub struct Vec2 {
    pub x: Fixed,
    pub y: Fixed,
}

/// The vector with raw components `x` and `y`, each saturated at the limit.
pub open spec fn vec2(x: int, y: int) -> Vec2 {
    Vec2 { x: fixed(x), y: fixed(y) }
}

/// The point reached from `p` by moving along `v` for the factor `k`, given
/// in millionths: `p + v * k`, each product rounded toward zero.
pub open spec fn shifted(p: Vec2, v: Vec2, k: int) -> Vec2 {
    vec2(p.x@ + trunc_div(v.x@ * k, SCALE as int), p.y@ + trunc_div(v.y@ * k, SCALE as int))
}

/// The squared length of the displacement from `b` to `a`, in raw units squared.
pub open spec fn dist_sq(a: Vec2, b: Vec2) -> int {
    (a.x@ - b.x@) * (a.x@ - b.x@) + (a.y@ - b.y@) * (a.y@ - b.y@)
}

/// The x component, in millionths, of the unit vector from `q` to `p`. The
/// distance is rounded up and the quotient toward zero, so the vector is never
/// longer than one.
pub open spec fn normal_x(p: Vec2, q: Vec2) -> int {
    trunc_div((p.x@ - q.x@) * SCALE, ceil_sqrt(dist_sq(p, q)))
}

/// The y component, in millionths, of the unit vector from `q` to `p`.
pub open spec fn normal_y(p: Vec2, q: Vec2) -> int {
    trunc_div((p.y@ - q.y@) * SCALE, ceil_sqrt(dist_sq(p, q)))
}

/// A component of a vector is no longer than a bound on the vector's length.
pub proof fn lemma_component_bound(x: int, y: int, c: int)
    by (nonlinear_arith)
    requires
        0 <= c,
        x * x + y * y <= c * c,
    ensures
        -c <= x <= c,
        -c <= y <= c,
{
}

/// Scaling a fraction of magnitude at most one gives at most the scale.
pub proof fn lemma_scaled_fraction(x: int, c: int, s: int)
    by (nonlinear_arith)
    requires
        0 < c,
        -c <= x <= c,
        0 <= s,
    ensures
        -s <= trunc_div(x * s, c) <= s,
{
}

/// The unit normal between two distinct points has components of magnitude at
/// most `SCALE`.
pub proof fn lemma_normal_bound(p: Vec2, q: Vec2)
    requires
        p.wf(),
        q.wf(),
        p != q,
    ensures
        -SCALE <= normal_x(p, q) <= SCALE,
        -SCALE <= normal_y(p, q) <= SCALE,
        ceil_sqrt(dist_sq(p, q)) >= 1,
{
    let dx = p.x@ - q.x@;
    let dy = p.y@ - q.y@;
    let d2 = dist_sq(p, q);
    assert(d2 > 0) by (nonlinear_arith)
        requires
            d2 == dx * dx + dy * dy,
            dx != 0 || dy != 0,
    ;
    lemma_floor_sqrt_exists(d2);
    let r = floor_sqrt(d2);
    lemma_ceil_sqrt_bounds(d2, r);
    let c = ceil_sqrt(d2);
    lemma_component_bound(dx, dy, c);
    lemma_scaled_fraction(dx, c, SCALE as int);
    lemma_scaled_fraction(dy, c, SCALE as int);
}


/// The unit normal between two distinct points is no longer than one.
pub proof fn lemma_normal_length(p: Vec2, q: Vec2)
    requires
        p.wf(),
        q.wf(),
        p != q,
    ensures
        normal_x(p, q) * normal_x(p, q) + normal_y(p, q) * normal_y(p, q) <= SCALE * SCALE,
{
    let dx = p.x@ - q.x@;
    let dy = p.y@ - q.y@;
    let d2 = dist_sq(p, q);
    assert(d2 > 0) by (nonlinear_arith)
        requires
            d2 == dx * dx + dy * dy,
            dx != 0 || dy != 0,
    ;
    lemma_floor_sqrt_exists(d2);
    lemma_ceil_sqrt_bounds(d2, floor_sqrt(d2));
    let c = ceil_sqrt(d2);
    let nx = normal_x(p, q);
    let ny = normal_y(p, q);
    lemma_trunc_square(dx * SCALE, c);
    lemma_trunc_square(dy * SCALE, c);
    let scale = SCALE as int;
    let ss = scale * scale;
    let cc = c * c;
    let len2 = nx * nx + ny * ny;
    assert((dx * scale) * (dx * scale) == ss * (dx * dx) && (dy * scale) * (dy * scale) == ss * (
        dy * dy)) by (nonlinear_arith)
        requires
            ss == scale * scale,
    ;
    assert(len2 * cc == (nx * nx) * cc + (ny * ny) * cc) by (nonlinear_arith)
        requires
            len2 == nx * nx + ny * ny,
    ;
    assert(ss * d2 == ss * (dx * dx) + ss * (dy * dy)) by (nonlinear_arith)
        requires
            d2 == dx * dx + dy * dy,
    ;
    assert(ss * d2 <= ss * cc) by (nonlinear_arith)
        requires
            d2 <= cc,
            ss == scale * scale,
    ;
    assert(len2 <= ss) by (nonlinear_arith)
        requires
            len2 * cc <= ss * cc,
            cc == c * c,
            c >= 1,
    ;
}

/// Regrouping of the products of two pairs of numbers.
proof fn lemma_cross_terms(x: int, y: int, dx: int, dy: int)
    by (nonlinear_arith)
    ensures
        (x * x) * (dx * dx) == (x * dx) * (x * dx),
        (x * x) * (dy * dy) == (x * dy) * (x * dy),
        (y * y) * (dx * dx) == (y * dx) * (y * dx),
        (y * y) * (dy * dy) == (y * dy) * (y * dy),
        (x * dx) * (y * dy) == (x * dy) * (y * dx),
{
}

/// The squared length of a vector times that of another is at least the
/// square of their dot product.
pub proof fn lemma_dot_square(x: int, y: int, dx: int, dy: int)
    ensures
        (x * x + y * y) * (dx * dx + dy * dy) >= (x * dx + y * dy) * (x * dx + y * dy),
{
    lemma_cross_terms(x, y, dx, dy);
    let a = x * dx;
    let b = y * dy;
    let c = x * dy;
    let e = y * dx;
    let xx = x * x;
    let yy = y * y;
    let dd = dx * dx;
    let ee = dy * dy;
    assert((xx + yy) * (dd + ee) == xx * dd + xx * ee + yy * dd + yy * ee) by (nonlinear_arith);
    assert((a + b) * (a + b) == a * a + 2 * (a * b) + b * b) by (nonlinear_arith);
    assert(c * c + e * e - 2 * (c * e) >= 0) by (nonlinear_arith);
}

impl Vec2 {
    /// Whether both components lie within the limit.
    pub open spec fn wf(self) -> bool {
        self.x.wf() && self.y.wf()
    }

    /// The vector with the given components.
    pub fn new(x: Fixed, y: Fixed) -> (r: Vec2)
        ensures
            r == (Vec2 { x, y }),
    {
        Vec2 { x, y }
    }

    /// The zero vector.
    pub fn zero() -> (r: Vec2)
        ensures
            r == vec2(0, 0),
            r.wf(),
    {
        Vec2 { x: Fixed::zero(), y: Fixed::zero() }
    }

    /// Whether both components lie within the limit.
    pub fn is_valid(&self) -> (ok: bool)
        ensures
            ok == self.wf(),
    {
        self.x.is_valid() && self.y.is_valid()
    }

    /// The component-wise sum, saturated at the limit.
    pub fn add(self, other: Vec2) -> (r: Vec2)
        ensures
            r == vec2(self.x@ + other.x@, self.y@ + other.y@),
            r.wf(),
    {
        Vec2 { x: self.x.add(other.x), y: self.y.add(other.y) }
    }

    /// The point `self + v * k`, each product rounded toward zero and the
    /// sum saturated at the limit.
    pub fn add_scaled(self, v: Vec2, k: Fixed) -> (r: Vec2)
        requires
            self.wf(),
            v.wf(),
            k.wf(),
        ensures
            r == shifted(self, v, k@),
            r.wf(),
    {
        proof {
            lemma_mul_bound(v.x@, k@, LIMIT as int, LIMIT as int);
            lemma_mul_bound(v.y@, k@, LIMIT as int, LIMIT as int);
            lemma_trunc_div_bounds(v.x@ * k@, SCALE as int);
            lemma_trunc_div_bounds(v.y@ * k@, SCALE as int);
        }
        let sx: i128 = ((v.x.raw as i128) * (k.raw as i128)) / (SCALE as i128);
        let sy: i128 = ((v.y.raw as i128) * (k.raw as i128)) / (SCALE as i128);
        Vec2 {
            x: Fixed::from_wide(self.x.raw as i128 + sx),
            y: Fixed::from_wide(self.y.raw as i128 + sy),
        }
    }

    /// The unit vector from `from` to `self`, in millionths and never longer
    /// than one.
    pub fn unit_from(self, from: Vec2) -> (r: Vec2)
        requires
            self.wf(),
            from.wf(),
            self != from,
        ensures
            r.x@ == normal_x(self, from),
            r.y@ == normal_y(self, from),
            -SCALE <= r.x@ <= SCALE,
            -SCALE <= r.y@ <= SCALE,
            r.wf(),
    {
        let dx: i128 = self.x.raw as i128 - from.x.raw as i128;
        let dy: i128 = self.y.raw as i128 - from.y.raw as i128;
        proof {
            lemma_mul_bound(dx as int, dx as int, 2 * LIMIT, 2 * LIMIT);
            lemma_mul_bound(dy as int, dy as int, 2 * LIMIT, 2 * LIMIT);
            assert(dx * dx >= 0 && dy * dy >= 0) by (nonlinear_arith);
            lemma_normal_bound(self, from);
            lemma_mul_bound(dx as int, SCALE as int, 2 * LIMIT, SCALE as int);
            lemma_mul_bound(dy as int, SCALE as int, 2 * LIMIT, SCALE as int);
        }
        let len: i128 = isqrt_up((dx * dx + dy * dy) as u128) as i128;
        Vec2 {
            x: Fixed { raw: ((dx * (SCALE as i128)) / len) as i64 },
            y: Fixed { raw: ((dy * (SCALE as i128)) / len) as i64 },
        }
    }
}

} // verus!
