//! Fixed-point angle helpers: normalization to `(-PI_FX, PI_FX]`, sine and
//! cosine by a bounded rational approximation, and a two-argument
//! arctangent. Every function is pinned to an exact integer formula; the
//! stated laws are the range bounds and symmetries the renderer relies on.

use vstd::prelude::*;
use crate::fixed::{FX_ONE, FX_INF, sabs, cap_inf, fx_div_spec, fx_div, euclid_mod,
    lemma_nonneg_div_matches};

verus! {

/// Half turn in fixed-point radians.
pub const PI_FX: i64 = 205887;

/// Full turn in fixed-point radians.
pub const TWO_PI_FX: i64 = 411774;

/// Quarter turn in fixed-point radians.
pub const PI_HALF_FX: i64 = 102943;

/// Eighth of a turn in fixed-point radians.
pub const PI_QUARTER_FX: i64 = 51471;

/// Normalization of an angle into `(-PI_FX, PI_FX]`.
pub open spec fn norm_angle_spec(a: int) -> int {
    (PI_FX as int) - (((PI_FX as int) - a) % (TWO_PI_FX as int))
}

/// Normalize an angle to `(-PI_FX, PI_FX]`; the result differs from the
/// input by a whole number of turns.
pub fn norm_angle(a: i64) -> (r: i64)
    requires
        -FX_INF <= a <= FX_INF,
    ensures
        r == norm_angle_spec(a as int),
        -PI_FX < r <= PI_FX,
{
    let m: i64 = euclid_mod(PI_FX - a, TWO_PI_FX);
    PI_FX - m
}

/// Sine on `[0, PI_FX]` by the bounded rational approximation
/// `16 x (pi - x) / (5 pi^2 - 4 x (pi - x))`, capped at `FX_ONE`. It is
/// exactly 0 at both ends of the range.
pub open spec fn sin_half_spec(x: int) -> int {
    let s = x * ((PI_FX as int) - x);
    let nmr = 16 * s * (FX_ONE as int);
    let dnm = 5 * (PI_FX as int) * (PI_FX as int) - 4 * s;
    if dnm <= 0 {
        0
    } else if nmr / dnm > FX_ONE {
        FX_ONE as int
    } else {
        nmr / dnm
    }
}

/// Sine on `[-PI_FX, PI_FX]`: the odd extension of `sin_half_spec`.
pub open spec fn sin_fx_spec(a: int) -> int {
    if a < 0 {
        -sin_half_spec(-a)
    } else {
        sin_half_spec(a)
    }
}

/// Cosine for any angle: sine of the normalized complementary angle.
pub open spec fn cos_fx_spec(a: int) -> int {
    sin_fx_spec(norm_angle_spec((PI_HALF_FX as int) - a))
}

/// The product `x * (PI_FX - x)` over the half range stays within bounds
/// and keeps the approximation's denominator positive.
proof fn lemma_sin_core_bounds(x: int)
    by (nonlinear_arith)
    requires
        0 <= x <= PI_FX,
    ensures
        0 <= x * ((PI_FX as int) - x) <= 0x2_8000_0000,
        5 * (PI_FX as int) * (PI_FX as int) - 4 * (x * ((PI_FX as int) - x)) >= (PI_FX as int) * (
        PI_FX as int),
{
}

fn sin_half(x: i64) -> (r: i64)
    requires
        0 <= x <= PI_FX,
    ensures
        r == sin_half_spec(x as int),
        0 <= r <= FX_ONE,
{
    proof {
        lemma_sin_core_bounds(x as int);
    }
    let s: i64 = x * (PI_FX - x);
    assert(0 <= 16 * (s as int) * (FX_ONE as int) <= 0x28_0000_0000_0000) by (nonlinear_arith)
        requires
            0 <= s <= 0x2_8000_0000,
    ;
    let nmr: u64 = 16 * (s as u64) * (FX_ONE as u64);
    let dnm: u64 = (5 * PI_FX * PI_FX - 4 * s) as u64;
    let v: u64 = nmr / dnm;
    proof {
        lemma_nonneg_div_matches(nmr as int, dnm as int);
    }
    if v > FX_ONE as u64 {
        FX_ONE
    } else {
        v as i64
    }
}

/// Sine of an angle in `[-PI_FX, PI_FX]`, in `[-FX_ONE, FX_ONE]`.
pub fn sin_fx(a: i64) -> (r: i64)
    requires
        -PI_FX <= a <= PI_FX,
    ensures
        r == sin_fx_spec(a as int),
        -FX_ONE <= r <= FX_ONE,
{
    if a < 0 {
        let v: i64 = sin_half(-a);
        -v
    } else {
        sin_half(a)
    }
}

/// Cosine of any angle, in `[-FX_ONE, FX_ONE]`.
pub fn cos_fx(a: i64) -> (r: i64)
    requires
        -FX_INF + PI_HALF_FX <= a <= FX_INF,
    ensures
        r == cos_fx_spec(a as int),
        -FX_ONE <= r <= FX_ONE,
{
    let n: i64 = norm_angle(PI_HALF_FX - a);
    sin_fx(n)
}

/// Arctangent of a ratio in `[0, FX_ONE]` (both in fixed point): the linear
/// term plus a quadratic correction, staying within `[0, PI_HALF_FX)`.
pub open spec fn atan_frac_spec(z: int) -> int {
    let a1 = z * (PI_QUARTER_FX as int) / (FX_ONE as int);
    let corr = z * ((FX_ONE as int) - z) / (FX_ONE as int);
    let factor = 16036 + 4345 * z / (FX_ONE as int);
    a1 + corr * factor / (FX_ONE as int)
}

/// Bounds for the arctangent approximation.
proof fn lemma_atan_frac_bounds(z: int)
    by (nonlinear_arith)
    requires
        0 <= z <= FX_ONE,
    ensures
        0 <= z * (PI_QUARTER_FX as int) / (FX_ONE as int) <= PI_QUARTER_FX,
        0 <= z * ((FX_ONE as int) - z) / (FX_ONE as int) <= FX_ONE,
        16036 <= 16036 + 4345 * z / (FX_ONE as int) <= 20381,
        0 <= atan_frac_spec(z) < PI_HALF_FX,
{
}

fn atan_frac(z: i64) -> (r: i64)
    requires
        0 <= z <= FX_ONE,
    ensures
        r == atan_frac_spec(z as int),
        0 <= r < PI_HALF_FX,
{
    proof {
        lemma_atan_frac_bounds(z as int);
    }
    let a1: i64 = z * PI_QUARTER_FX / FX_ONE;
    let corr: i64 = z * (FX_ONE - z) / FX_ONE;
    let factor: i64 = 16036 + 4345 * z / FX_ONE;
    a1 + corr * factor / FX_ONE
}

/// The ratio of the smaller magnitude to the larger stays in `[0, FX_ONE]`.
proof fn lemma_ratio_in_unit(a: int, b: int)
    by (nonlinear_arith)
    requires
        0 <= sabs(a) <= sabs(b),
        b != 0,
    ensures
        0 <= sabs(a) * (FX_ONE as int) / sabs(b) <= FX_ONE,
        fx_div_spec(sabs(a), sabs(b)) == sabs(a) * (FX_ONE as int) / sabs(b),
{
}

/// The angle of the vector `(x, y)`, in `[-PI_FX, PI_FX]`.
pub open spec fn atan2_spec(y: int, x: int) -> int {
    let ax = sabs(x);
    let ay = sabs(y);
    if ax == 0 && ay == 0 {
        0
    } else if ay <= ax {
        let base = atan_frac_spec(ay * (FX_ONE as int) / ax);
        let m = if x > 0 {
            base
        } else {
            (PI_FX as int) - base
        };
        if y < 0 {
            -m
        } else {
            m
        }
    } else {
        let base = atan_frac_spec(ax * (FX_ONE as int) / ay);
        let m = if x >= 0 {
            (PI_HALF_FX as int) - base
        } else {
            (PI_HALF_FX as int) + base
        };
        if y < 0 {
            -m
        } else {
            m
        }
    }
}

/// Arctangent of `y / x` honoring the quadrant, in `[-PI_FX, PI_FX]`.
pub fn atan2_fx(y: i64, x: i64) -> (r: i64)
    requires
        -FX_INF <= y <= FX_INF,
        -FX_INF <= x <= FX_INF,
    ensures
        r == atan2_spec(y as int, x as int),
        -PI_FX <= r <= PI_FX,
{
    let ax: i64 = if x < 0 { -x } else { x };
    let ay: i64 = if y < 0 { -y } else { y };
    if ax == 0 && ay == 0 {
        return 0;
    }
    if ay <= ax {
        proof {
            lemma_ratio_in_unit(y as int, x as int);
        }
        let z: i64 = fx_div(ay, ax);
        let base: i64 = atan_frac(z);
        let m: i64 = if x > 0 {
            base
        } else {
            PI_FX - base
        };
        if y < 0 {
            -m
        } else {
            m
        }
    } else {
        proof {
            lemma_ratio_in_unit(x as int, y as int);
        }
        let z: i64 = fx_div(ax, ay);
        let base: i64 = atan_frac(z);
        let m: i64 = if x >= 0 {
            PI_HALF_FX - base
        } else {
            PI_HALF_FX + base
        };
        if y < 0 {
            -m
        } else {
            m
        }
    }
}

} // verus!
