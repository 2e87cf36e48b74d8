//! Fixed-point scalars: whole numbers of millionths with saturating arithmetic.
use vstd::prelude::*;

verus! {

/// Raw steps per unit: a raw value of `SCALE` stands for `1.0`.
pub const SCALE: i64 = 1_000_000;

/// Largest magnitude of a raw value: one million units.
pub const LIMIT: i64 = 1_000_000_000_000;

/// The nearest value to `v` within `[-LIMIT, LIMIT]`.
pub open spec fn clamp(v: int) -> int {
    if v > LIMIT {
        LIMIT as int
    } else if v < -LIMIT {
        -LIMIT
    } else {
        v
    }
}

/// The quotient of `a` by a positive `b`, rounded toward zero.
pub open spec fn trunc_div(a: int, b: int) -> int {
    if a >= 0 {
        a / b
    } else {
        -((-a) / b)
    }
}

/// The quotient of a non-negative `a` by a positive `b`, rounded up.
pub open spec fn ceil_div(a: int, b: int) -> int {
    (a + b - 1) / b
}

/// A number with six decimal places, held as a count of millionths.
#[derive(Clone, Copy, Debug, PartialEq, Eq, Structural)]
pub struct Fixed {
    pub raw: i64,
}

impl View for Fixed {
    type V = int;

    open spec fn view(&self) -> int {
        self.raw as int
    }
}

/// The fixed-point number whose raw value is `v`, saturated at the limit.
pub open spec fn fixed(v: int) -> Fixed {
    Fixed { raw: clamp(v) as i64 }
}

/// If `|a| <= bound_a` and `|b| <= bound_b` then `|a * b| <= bound_a * bound_b`.
pub proof fn lemma_mul_bound(a: int, b: int, bound_a: int, bound_b: int)
    by (nonlinear_arith)
    requires
        -bound_a <= a <= bound_a,
        -bound_b <= b <= bound_b,
    ensures
        -(bound_a * bound_b) <= a * b <= bound_a * bound_b,
{
}

/// Rounding toward zero never grows a magnitude, and misses by less than one.
pub proof fn lemma_trunc_div_bounds(a: int, b: int)
    by (nonlinear_arith)
    requires
        b > 0,
    ensures
        a >= 0 ==> 0 <= trunc_div(a, b) * b <= a < (trunc_div(a, b) + 1) * b,
        a <= 0 ==> (trunc_div(a, b) - 1) * b < a <= trunc_div(a, b) * b <= 0,
        a >= 0 ==> trunc_div(a, b) <= a,
        a <= 0 ==> trunc_div(a, b) >= a,
{
}

/// Rounding a quotient toward zero never grows its square.
pub proof fn lemma_trunc_square(a: int, d: int)
    by (nonlinear_arith)
    requires
        d > 0,
    ensures
        (trunc_div(a, d) * trunc_div(a, d)) * (d * d) <= a * a,
{
}

impl Fixed {
    /// Whether the raw value lies within the limit.
    pub open spec fn wf(self) -> bool {
        -LIMIT <= self.raw <= LIMIT
    }

    /// The number with raw value `raw`, saturated at the limit.
    pub fn from_raw(raw: i64) -> (r: Fixed)
        ensures
            r == fixed(raw as int),
            r.wf(),
    {
        if raw > LIMIT {
            Fixed { raw: LIMIT }
        } else if raw < -LIMIT {
            Fixed { raw: -LIMIT }
        } else {
            Fixed { raw }
        }
    }

    /// The number with raw value `v`, saturated at the limit.
    pub fn from_wide(v: i128) -> (r: Fixed)
        ensures
            r == fixed(v as int),
            r.wf(),
    {
        if v > LIMIT as i128 {
            Fixed { raw: LIMIT }
        } else if v < -(LIMIT as i128) {
            Fixed { raw: -LIMIT }
        } else {
            Fixed { raw: v as i64 }
        }
    }

    /// The whole number `units`, saturated at the limit.
    pub fn from_units(units: i64) -> (r: Fixed)
        ensures
            r == fixed(units * SCALE),
            r.wf(),
    {
        proof {
            lemma_mul_bound(units as int, SCALE as int, 0x8000_0000_0000_0000, SCALE as int);
        }
        Fixed::from_wide((units as i128) * (SCALE as i128))
    }

    /// Zero.
    pub fn zero() -> (r: Fixed)
        ensures
            r == fixed(0),
            r@ == 0,
    {
        Fixed { raw: 0 }
    }

    /// Whether the value lies within the limit.
    pub fn is_valid(&self) -> (ok: bool)
        ensures
            ok == self.wf(),
    {
        -LIMIT <= self.raw && self.raw <= LIMIT
    }

    /// The sum, saturated at the limit.
    pub fn add(self, other: Fixed) -> (r: Fixed)
        ensures
            r == fixed(self@ + other@),
            r.wf(),
    {
        Fixed::from_wide((self.raw as i128) + (other.raw as i128))
    }

    /// The difference, saturated at the limit.
    pub fn sub(self, other: Fixed) -> (r: Fixed)
        ensures
            r == fixed(self@ - other@),
            r.wf(),
    {
        Fixed::from_wide((self.raw as i128) - (other.raw as i128))
    }

    /// The negation, saturated at the limit.
    pub fn neg(self) -> (r: Fixed)
        ensures
            r == fixed(-self@),
            r.wf(),
    {
        Fixed::from_wide(-(self.raw as i128))
    }

    /// The product, rounded toward zero and saturated at the limit.
    pub fn mul(self, other: Fixed) -> (r: Fixed)
        ensures
            r == fixed(trunc_div(self@ * other@, SCALE as int)),
            r.wf(),
    {
        proof {
            lemma_mul_bound(self@, other@, 0x8000_0000_0000_0000, 0x8000_0000_0000_0000);
        }
        let product: i128 = (self.raw as i128) * (other.raw as i128);
        Fixed::from_wide(product / (SCALE as i128))
    }
}

} // verus!
