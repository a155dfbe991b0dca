//! Fixed-point arithmetic helpers shared by the geometry and movement code.
//!
//! Distances are measured in milli-units (one world unit is `SCALE`
//! milli-units); durations are measured in microseconds.

use vstd::prelude::*;

verus! {

/// Milli-units per world unit.
pub const SCALE: i64 = 1000;

/// Microseconds per second.
pub const MICROS_PER_SEC: i64 = 1000000;

/// Bound on coordinates accepted by the geometry primitives; products of
/// squared differences of such coordinates stay inside `i128`.
pub const COORD_LIMIT: i64 = 1000000000;

/// Absolute value, as a spec-level integer.
pub open spec fn abs_spec(a: int) -> int {
    if a >= 0 {
        a
    } else {
        -a
    }
}

/// `a * num / den` computed on the magnitude of `a`, keeping `a`'s sign.
/// Division is truncation of the non-negative quotient.
pub open spec fn scale_spec(a: int, num: int, den: int) -> int
    recommends
        num >= 0,
        den > 0,
{
    if a >= 0 {
        (a * num) / den
    } else {
        -((-a * num) / den)
    }
}

/// Scales `a` by the non-negative ratio `num / den`, rounding the magnitude
/// down and keeping the sign of `a`.
pub fn scale64(a: i64, num: i64, den: i64) -> (r: i64)
    requires
        0 <= num,
        0 < den,
        abs_spec(a as int) * (num as int) / (den as int) <= i64::MAX,
        -(i64::MAX as int) <= a,
    ensures
        r == scale_spec(a as int, num as int, den as int),
        abs_spec(r as int) <= abs_spec(a as int) * (num as int) / (den as int),
{
    let neg = a < 0;
    let mag = if neg {
        -a
    } else {
        a
    };
    proof {
        assert((mag as int) * (num as int) <= (i64::MAX as int) * (i64::MAX as int))
            by (nonlinear_arith)
            requires
                0 <= mag as int <= i64::MAX as int,
                0 <= num as int <= i64::MAX as int,
        ;
    }
    let wide = (mag as i128) * (num as i128);
    let q = wide / (den as i128);
    proof {
        assert(mag as int == abs_spec(a as int));
        assert(wide == abs_spec(a as int) * (num as int));
        assert(q == abs_spec(a as int) * (num as int) / (den as int)) by {
            vstd::arithmetic::div_mod::lemma_div_is_ordered(0, wide as int, den as int);
        }
        assert(0 <= q <= i64::MAX);
    }
    let qs = q as i64;
    if neg {
        -qs
    } else {
        qs
    }
}

/// Integer square root: the greatest `r` with `r * r <= n`.
pub fn isqrt(n: u64) -> (r: u64)
    ensures
        r * r <= n,
        n < (r + 1) * (r + 1),
{
    let mut lo: u64 = 0;
    let mut hi: u64 = 4294967296;
    // Invariant: lo * lo <= n < hi * hi.
    proof {
        assert((4294967296 as int) * (4294967296 as int) == 18446744073709551616);
    }
    while lo + 1 < hi
        invariant
            lo < hi <= 4294967296,
            lo * lo <= n,
            n < hi * hi,
        decreases hi - lo,
    {
        let mid = lo + (hi - lo) / 2;
        proof {
            assert((mid as int) * (mid as int) <= (4294967296 as int) * (4294967296 as int))
                by (nonlinear_arith)
                requires
                    0 <= mid as int <= 4294967296,
            ;
        }
        let sq = (mid as u128) * (mid as u128);
        if sq <= n as u128 {
            lo = mid;
        } else {
            hi = mid;
        }
    }
    lo
}

/// Subtraction that saturates at a deep floor, so repeated timer decrements
/// can never underflow; only the sign of a timer is ever inspected.
pub const TIMER_FLOOR: i64 = -1000000000000000;

pub fn sat_sub_timer(t: i64, dt: i64) -> (r: i64)
    requires
        0 <= dt,
        TIMER_FLOOR <= t,
    ensures
        r == if t - dt >= TIMER_FLOOR {
            t - dt
        } else {
            TIMER_FLOOR as int
        },
        TIMER_FLOOR <= r <= t,
{
    if t >= TIMER_FLOOR + dt {
        t - dt
    } else {
        TIMER_FLOOR
    }
}

/// Dividing a non-negative value by a positive divisor cannot grow it.
pub proof fn lemma_div_le_self(x: int, d: int)
    requires
        x >= 0,
        d >= 1,
    ensures
        0 <= x / d <= x,
{
    vstd::arithmetic::div_mod::lemma_div_is_ordered(0, x, d);
    vstd::arithmetic::div_mod::lemma_fundamental_div_mod(x, d);
    assert(x / d <= d * (x / d)) by (nonlinear_arith)
        requires
            d >= 1,
            x / d >= 0,
    ;
}

} // verus!
