//! Exact scaled-decimal numbers for the edit pipeline.
//!
//! A [`Num`] holds a signed value with nine decimal places: the stored
//! integer `v` denotes the number `v / SCALE`.  The representable range is
//! clamped to `[-VMAX, VMAX]`, wide enough to hold every `u64` and `i64`
//! leaf value exactly.  All arithmetic is exact except where a result
//! leaves that range, in which case it saturates at the bound; the
//! contracts state the saturation explicitly.

use vstd::prelude::*;
use vstd::arithmetic::div_mod::{
    lemma_div_by_multiple, lemma_div_is_ordered, lemma_div_pos_is_pos, lemma_div_nonincreasing,
};

verus! {

/// Denominator of the fixed-point representation: nine decimal places.
pub const SCALE: i128 = 1_000_000_000;

/// Largest stored magnitude; the largest representable value is `VMAX / SCALE`.
pub const VMAX: i128 = 100_000_000_000_000_000_000_000_000_000;

/// A signed fixed-point decimal: the stored `v` denotes `v / SCALE`.
#[derive(Clone, Copy, Debug, PartialEq, Eq, Structural)]
pub struct Num {
    /// Stored scaled value; the number denoted is `v / SCALE`.
    pub v: i128,
}

impl View for Num {
    type V = int;

    open spec fn view(&self) -> int {
        self.v as int
    }
}

/// Clamps an unbounded (scaled) value into the representable range.
pub open spec fn clamp_scaled(x: int) -> int {
    if x > VMAX as int {
        VMAX as int
    } else if x < -(VMAX as int) {
        -(VMAX as int)
    } else {
        x
    }
}

/// Quotient of `p / d` truncated toward zero, for `d > 0`.
pub open spec fn trunc_div(p: int, d: int) -> int {
    if p >= 0 {
        p / d
    } else {
        -((-p) / d)
    }
}

/// Product of two scaled values, rescaled and truncated toward zero.
pub open spec fn mul_scaled(a: int, b: int) -> int {
    trunc_div(a * b, SCALE as int)
}

/// Clamps `x` into `[lo, hi]`.
pub open spec fn sat_in(x: int, lo: int, hi: int) -> int {
    if x < lo {
        lo
    } else if x > hi {
        hi
    } else {
        x
    }
}

impl Num {
    /// The stored value lies within the representable range.
    pub open spec fn wf(self) -> bool {
        -(VMAX as int) <= self.v as int <= VMAX as int
    }

    /// The integer part of the value, truncated toward zero.
    pub open spec fn int_part(self) -> int {
        trunc_div(self@, SCALE as int)
    }

    /// Whether the value is an exact integer `i`.
    pub open spec fn is_int(self, i: int) -> bool {
        self@ == i * (SCALE as int)
    }

    pub fn zero() -> (r: Num)
        ensures
            r.wf(),
            r@ == 0,
    {
        Num { v: 0 }
    }

    pub fn from_i32(x: i32) -> (r: Num)
        ensures
            r.wf(),
            r.is_int(x as int),
    {
        proof {
            mul_le_abs(x as int, i32::MIN as int, i32::MAX as int, SCALE as int);
        }
        Num { v: (x as i128) * SCALE }
    }

    pub fn from_i64(x: i64) -> (r: Num)
        ensures
            r.wf(),
            r.is_int(x as int),
    {
        proof {
            mul_le_abs(x as int, i64::MIN as int, i64::MAX as int, SCALE as int);
        }
        Num { v: (x as i128) * SCALE }
    }

    pub fn from_u32(x: u32) -> (r: Num)
        ensures
            r.wf(),
            r.is_int(x as int),
    {
        proof {
            mul_le_abs(x as int, 0, u32::MAX as int, SCALE as int);
        }
        Num { v: (x as i128) * SCALE }
    }

    pub fn from_u64(x: u64) -> (r: Num)
        ensures
            r.wf(),
            r.is_int(x as int),
    {
        proof {
            mul_le_abs(x as int, 0, u64::MAX as int, SCALE as int);
        }
        Num { v: (x as i128) * SCALE }
    }

    /// Builds a number directly from a stored scaled value, refusing values
    /// outside the representable range.
    pub fn new_scaled(v: i128) -> (r: Option<Num>)
        ensures
            -VMAX <= v <= VMAX ==> r == Some(Num { v }),
            !(-VMAX <= v <= VMAX) ==> r is None,
            r is Some ==> r->0.wf() && r->0@ == v as int,
    {
        if -VMAX <= v && v <= VMAX {
            Some(Num { v })
        } else {
            None
        }
    }

    /// The stored scaled value.
    pub fn scaled(self) -> (r: i128)
        ensures
            r as int == self@,
    {
        self.v
    }

    /// Saturating addition of two values.
    pub fn add_clamped(self, other: Num) -> (r: Num)
        requires
            self.wf(),
            other.wf(),
        ensures
            r.wf(),
            r@ == clamp_scaled(self@ + other@),
    {
        let s = self.v + other.v;
        if s > VMAX {
            Num { v: VMAX }
        } else if s < -VMAX {
            Num { v: -VMAX }
        } else {
            Num { v: s }
        }
    }

    /// Saturating multiplication of two values, truncated toward zero at the
    /// ninth decimal place.
    pub fn mul_clamped(self, other: Num) -> (r: Num)
        requires
            self.wf(),
            other.wf(),
        ensures
            r.wf(),
            r@ == clamp_scaled(mul_scaled(self@, other@)),
    {
        let negative = (self.v < 0) != (other.v < 0);
        match self.v.checked_mul(other.v) {
            None => {
                proof {
                    lemma_overflow_saturates(self.v as int, other.v as int);
                    lemma_mul_sign(self.v as int, other.v as int);
                }
                if negative {
                    Num { v: -VMAX }
                } else {
                    Num { v: VMAX }
                }
            },
            Some(p) => {
                if p == i128::MIN {
                    proof {
                        lemma_min_saturates(self.v as int, other.v as int);
                    }
                    Num { v: -VMAX }
                } else {
                    let abs: i128 = if p < 0 {
                        -p
                    } else {
                        p
                    };
                    let q: u128 = (abs as u128) / (SCALE as u128);
                    proof {
                        lemma_div_pos_is_pos(abs as int, SCALE as int);
                        lemma_div_nonincreasing(abs as int, SCALE as int);
                        assert(q as int == abs as int / SCALE as int);
                    }
                    let qi: i128 = q as i128;
                    let signed: i128 = if p < 0 {
                        -qi
                    } else {
                        qi
                    };
                    assert(signed as int == mul_scaled(self@, other@));
                    if signed > VMAX {
                        Num { v: VMAX }
                    } else if signed < -VMAX {
                        Num { v: -VMAX }
                    } else {
                        Num { v: signed }
                    }
                }
            },
        }
    }

    /// The integer part of the value as a machine word, truncated toward
    /// zero.
    pub fn trunc_scaled(self) -> (r: i128)
        requires
            self.wf(),
        ensures
            r as int == self.int_part(),
            -(VMAX as int) <= r as int <= VMAX as int,
    {
        if self.v < 0 {
            let a: i128 = -self.v;
            let q: u128 = (a as u128) / (SCALE as u128);
            proof {
                lemma_div_pos_is_pos(a as int, SCALE as int);
                lemma_div_nonincreasing(a as int, SCALE as int);
            }
            -(q as i128)
        } else {
            let q: u128 = (self.v as u128) / (SCALE as u128);
            proof {
                lemma_div_pos_is_pos(self.v as int, SCALE as int);
                lemma_div_nonincreasing(self.v as int, SCALE as int);
            }
            q as i128
        }
    }

    /// Truncation toward zero, saturated into the `i32` range.
    pub fn to_i32_sat(self) -> (r: i32)
        requires
            self.wf(),
        ensures
            r as int == sat_in(self.int_part(), i32::MIN as int, i32::MAX as int),
    {
        let t = self.trunc_scaled();
        if t < i32::MIN as i128 {
            i32::MIN
        } else if t > i32::MAX as i128 {
            i32::MAX
        } else {
            t as i32
        }
    }

    /// Truncation toward zero, saturated into the `i64` range.
    pub fn to_i64_sat(self) -> (r: i64)
        requires
            self.wf(),
        ensures
            r as int == sat_in(self.int_part(), i64::MIN as int, i64::MAX as int),
    {
        let t = self.trunc_scaled();
        if t < i64::MIN as i128 {
            i64::MIN
        } else if t > i64::MAX as i128 {
            i64::MAX
        } else {
            t as i64
        }
    }

    /// Truncation toward zero with negative values clamped to zero,
    /// saturated into the `u32` range.
    pub fn to_u32_sat(self) -> (r: u32)
        requires
            self.wf(),
        ensures
            r as int == sat_in(self.int_part(), 0, u32::MAX as int),
    {
        let t = self.trunc_scaled();
        if t < 0 {
            0
        } else if t > u32::MAX as i128 {
            u32::MAX
        } else {
            t as u32
        }
    }

    /// Truncation toward zero with negative values clamped to zero,
    /// saturated into the `u64` range.
    pub fn to_u64_sat(self) -> (r: u64)
        requires
            self.wf(),
        ensures
            r as int == sat_in(self.int_part(), 0, u64::MAX as int),
    {
        let t = self.trunc_scaled();
        if t < 0 {
            0
        } else if t > u64::MAX as i128 {
            u64::MAX
        } else {
            t as u64
        }
    }

    /// Strict order on values.
    pub fn lt(self, other: Num) -> (r: bool)
        ensures
            r == (self@ < other@),
    {
        self.v < other.v
    }

    /// Clamps the value into the optional bounds, lower bound first, the
    /// way an interactive edit applies its configured limits.
    pub fn clamp_bounds(self, min: Option<Num>, max: Option<Num>) -> (r: Num)
        ensures
            r@ == clamp_bounds_spec(self@, min, max),
            self.wf() && bound_wf(min) && bound_wf(max) ==> r.wf(),
    {
        let lo = match min {
            Some(m) => if self.v < m.v {
                m
            } else {
                self
            },
            None => self,
        };
        match max {
            Some(m) => if lo.v > m.v {
                m
            } else {
                lo
            },
            None => lo,
        }
    }
}

/// A bound is either absent or a well-formed value.
pub open spec fn bound_wf(b: Option<Num>) -> bool {
    match b {
        Some(m) => m.wf(),
        None => true,
    }
}

/// Result of clamping `x` below by `min` and then above by `max`.
pub open spec fn clamp_bounds_spec(x: int, min: Option<Num>, max: Option<Num>) -> int {
    let lo = match min {
        Some(m) => if x < m@ {
            m@
        } else {
            x
        },
        None => x,
    };
    match max {
        Some(m) => if lo > m@ {
            m@
        } else {
            lo
        },
        None => lo,
    }
}

/// For `lo <= x <= hi` with `d > 0`, the product `x * d` stays within
/// `[lo * d, hi * d]`.
proof fn mul_le_abs(x: int, lo: int, hi: int, d: int)
    requires
        lo <= x <= hi,
        d > 0,
    ensures
        lo * d <= x * d <= hi * d,
{
    vstd::arithmetic::mul::lemma_mul_inequality(lo, x, d);
    vstd::arithmetic::mul::lemma_mul_inequality(x, hi, d);
}

/// The sign of a product follows the signs of its factors.
proof fn lemma_mul_sign(a: int, b: int)
    ensures
        a > 0 && b > 0 ==> a * b > 0,
        a < 0 && b < 0 ==> a * b > 0,
        a < 0 && b > 0 ==> a * b < 0,
        a > 0 && b < 0 ==> a * b < 0,
        a == 0 || b == 0 ==> a * b == 0,
{
    assert(a > 0 && b > 0 ==> a * b > 0) by (nonlinear_arith);
    assert(a < 0 && b < 0 ==> a * b > 0) by (nonlinear_arith);
    assert(a < 0 && b > 0 ==> a * b < 0) by (nonlinear_arith);
    assert(a > 0 && b < 0 ==> a * b < 0) by (nonlinear_arith);
    assert(a == 0 || b == 0 ==> a * b == 0) by (nonlinear_arith);
}

/// A product too large for the machine word saturates: its true magnitude
/// exceeds every representable scaled value.
proof fn lemma_overflow_saturates(a: int, b: int)
    requires
        a * b > i128::MAX as int || a * b < i128::MIN as int,
    ensures
        a * b >= 0 ==> clamp_scaled(mul_scaled(a, b)) == VMAX as int,
        a * b < 0 ==> clamp_scaled(mul_scaled(a, b)) == -(VMAX as int),
{
    let p = a * b;
    if p >= 0 {
        lemma_quotient_exceeds(p);
    } else {
        lemma_quotient_exceeds(-p);
    }
}

/// The product `i128::MIN` also saturates downward.
proof fn lemma_min_saturates(a: int, b: int)
    requires
        a * b == i128::MIN as int,
    ensures
        clamp_scaled(mul_scaled(a, b)) == -(VMAX as int),
{
    lemma_quotient_exceeds(-(a * b));
}

/// Any magnitude beyond the machine word divides down to a quotient above
/// `VMAX`.
proof fn lemma_quotient_exceeds(p: int)
    requires
        p > i128::MAX as int,
    ensures
        p / (SCALE as int) > VMAX as int,
{
    assert((VMAX as int + 1) * SCALE as int == VMAX as int * SCALE as int + SCALE as int) by {
        vstd::arithmetic::mul::lemma_mul_is_distributive_add_other_way(
            SCALE as int,
            VMAX as int,
            1,
        );
    }
    assert((VMAX as int + 1) * SCALE as int <= p);
    lemma_div_is_ordered((VMAX as int + 1) * SCALE as int, p, SCALE as int);
    lemma_div_by_multiple(VMAX as int + 1, SCALE as int);
}

} // verus!
