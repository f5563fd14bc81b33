//! Fixed-point arithmetic: signed values scaled by `FX_ONE` (2^16).
//!
//! Magnitudes are saturated at `FX_INF`, the sentinel for "farther than any
//! representable distance"; it stands in for an unbounded value in delta
//! distances and depth buffer entries. Multiplication and division truncate
//! their result toward zero, like the hardware operations they are built
//! from; the spec functions state that rounding exactly.

use vstd::prelude::*;

verus! {

/// One world unit in fixed-point representation.
pub const FX_ONE: i64 = 0x1_0000;

/// Half of a world unit.
pub const FX_HALF: i64 = 0x8000;

/// Sentinel magnitude treated as infinity (2^46). All saturating operations
/// cap their result's magnitude here.
pub const FX_INF: i64 = 0x4000_0000_0000;

/// Magnitude of an integer.
pub open spec fn sabs(a: int) -> int {
    if a < 0 {
        -a
    } else {
        a
    }
}

/// Cap a non-negative magnitude at `FX_INF`.
pub open spec fn cap_inf(m: int) -> int {
    if m > FX_INF {
        FX_INF as int
    } else {
        m
    }
}

/// Fixed-point product `a * b / FX_ONE`, truncated toward zero and with its
/// magnitude saturated at `FX_INF`.
pub open spec fn fx_mul_spec(a: int, b: int) -> int {
    let m = cap_inf(sabs(a) * sabs(b) / (FX_ONE as int));
    if (a < 0) != (b < 0) {
        -m
    } else {
        m
    }
}

/// Fixed-point quotient `a * FX_ONE / b`, truncated toward zero and with its
/// magnitude saturated at `FX_INF`.
pub open spec fn fx_div_spec(a: int, b: int) -> int {
    let m = cap_inf(sabs(a) * (FX_ONE as int) / sabs(b));
    if (a < 0) != (b < 0) {
        -m
    } else {
        m
    }
}

/// Non-negative addition saturated at `FX_INF`.
pub open spec fn sat_add_spec(a: int, b: int) -> int {
    if a + b > FX_INF {
        FX_INF as int
    } else {
        a + b
    }
}

/// Multiplying by a factor of magnitude at most `FX_ONE` cannot grow the
/// other operand's magnitude.
pub proof fn lemma_fx_mul_unit_bound(a: int, b: int)
    by (nonlinear_arith)
    ensures
        sabs(a) <= FX_ONE ==> sabs(fx_mul_spec(a, b)) <= sabs(b),
        sabs(b) <= FX_ONE ==> sabs(fx_mul_spec(a, b)) <= sabs(a),
{
}

/// Multiplying by a factor of magnitude at most `2 * FX_ONE` at most
/// doubles the other operand's magnitude.
pub proof fn lemma_fx_mul_double_bound(a: int, b: int)
    by (nonlinear_arith)
    ensures
        sabs(b) <= 2 * FX_ONE ==> sabs(fx_mul_spec(a, b)) <= 2 * sabs(a),
{
}

/// `r` is the integer square root of `v`.
pub open spec fn is_sqrt(v: int, r: int) -> bool {
    0 <= r && r * r <= v < (r + 1) * (r + 1)
}

/// The integer square root of `v` (meaningful for `v >= 0`).
pub open spec fn sqrt_of(v: int) -> int {
    choose|r: int| is_sqrt(v, r)
}

/// The integer square root is unique, so a witness pins `sqrt_of`.
pub proof fn lemma_sqrt_unique(v: int, r: int)
    requires
        is_sqrt(v, r),
    ensures
        sqrt_of(v) == r,
{
    let rc = choose|x: int| is_sqrt(v, x);
    assert(is_sqrt(v, rc));
    assert(rc == r) by (nonlinear_arith)
        requires
            is_sqrt(v, rc),
            is_sqrt(v, r),
    ;
}

/// Saturated product-quotient `a * b / d` of non-negative values.
pub open spec fn muldiv_sat_spec(a: int, b: int, d: int) -> int {
    cap_inf(a * b / d)
}

pub fn muldiv_sat(a: i64, b: i64, d: i64) -> (r: i64)
    requires
        0 <= a <= FX_INF,
        0 <= b <= FX_INF,
        0 < d <= FX_INF,
    ensures
        r == muldiv_sat_spec(a as int, b as int, d as int),
        0 <= r <= FX_INF,
{
    assert(0 <= (a as int) * (b as int) <= (FX_INF as int) * (FX_INF as int)) by (nonlinear_arith)
        requires
            0 <= a <= FX_INF,
            0 <= b <= FX_INF,
    ;
    let p: u128 = (a as u128) * (b as u128);
    let q: u128 = p / (d as u128);
    if q > (FX_INF as u128) {
        FX_INF
    } else {
        q as i64
    }
}

pub fn fx_mul(a: i64, b: i64) -> (r: i64)
    requires
        -FX_INF <= a <= FX_INF,
        -FX_INF <= b <= FX_INF,
    ensures
        r == fx_mul_spec(a as int, b as int),
        -FX_INF <= r <= FX_INF,
{
    let an: bool = a < 0;
    let bn: bool = b < 0;
    let aa: u64 = if an {
        (-a) as u64
    } else {
        a as u64
    };
    let bb: u64 = if bn {
        (-b) as u64
    } else {
        b as u64
    };
    assert((aa as int) * (bb as int) <= (FX_INF as int) * (FX_INF as int)) by (nonlinear_arith)
        requires
            aa <= FX_INF,
            bb <= FX_INF,
    ;
    let p: u128 = (aa as u128) * (bb as u128);
    let q: u128 = p / (FX_ONE as u128);
    let m: u64 = if q > (FX_INF as u128) {
        FX_INF as u64
    } else {
        q as u64
    };
    if an != bn {
        -(m as i64)
    } else {
        m as i64
    }
}

pub fn fx_div(a: i64, b: i64) -> (r: i64)
    requires
        -FX_INF <= a <= FX_INF,
        -FX_INF <= b <= FX_INF,
        b != 0,
    ensures
        r == fx_div_spec(a as int, b as int),
        -FX_INF <= r <= FX_INF,
{
    let an: bool = a < 0;
    let bn: bool = b < 0;
    let aa: u64 = if an {
        (-a) as u64
    } else {
        a as u64
    };
    let bb: u64 = if bn {
        (-b) as u64
    } else {
        b as u64
    };
    assert((aa as int) * (FX_ONE as int) <= (FX_INF as int) * (FX_ONE as int)) by (nonlinear_arith)
        requires
            aa <= FX_INF,
    ;
    let p: u128 = (aa as u128) * (FX_ONE as u128);
    let q: u128 = p / (bb as u128);
    let m: u64 = if q > (FX_INF as u128) {
        FX_INF as u64
    } else {
        q as u64
    };
    if an != bn {
        -(m as i64)
    } else {
        m as i64
    }
}

pub fn sat_add(a: i64, b: i64) -> (r: i64)
    requires
        0 <= a <= FX_INF,
        0 <= b <= FX_INF,
    ensures
        r == sat_add_spec(a as int, b as int),
        0 <= r <= FX_INF,
{
    let s: i64 = a + b;
    if s > FX_INF {
        FX_INF
    } else {
        s
    }
}

/// Floor division by a positive divisor; agrees with mathematical (Euclidean)
/// division `a / d`.
pub fn floor_div(a: i64, d: i64) -> (r: i64)
    requires
        0 < d,
        -0x4000_0000_0000_0000 <= a <= 0x4000_0000_0000_0000,
    ensures
        r == (a as int) / (d as int),
        -sabs(a as int) <= r <= sabs(a as int),
        sabs(r as int) <= sabs(a as int) / (d as int) + 1,
{
    if a >= 0 {
        let q: u64 = (a as u64) / (d as u64);
        proof {
            lemma_nonneg_div_matches(a as int, d as int);
        }
        q as i64
    } else {
        let n: u64 = (-a) as u64;
        let q: u64 = (n + (d as u64) - 1) / (d as u64);
        proof {
            lemma_neg_floor_div(n as int, d as int);
        }
        -(q as i64)
    }
}

pub proof fn lemma_nonneg_div_matches(a: int, d: int)
    by (nonlinear_arith)
    requires
        0 <= a,
        0 < d,
    ensures
        0 <= a / d <= a,
{
}

/// For n >= 0, d > 0: floor(-n / d) == -ceil(n / d) == -((n + d - 1) / d).
proof fn lemma_neg_floor_div(n: int, d: int)
    by (nonlinear_arith)
    requires
        0 <= n,
        0 < d,
    ensures
        (-n) / d == -((n + d - 1) / d),
        0 <= (n + d - 1) / d <= n,
        (n + d - 1) / d <= n / d + 1,
{
}

/// Euclidean remainder by a positive modulus; result is in `[0, m)`.
pub fn euclid_mod(a: i64, m: i64) -> (r: i64)
    requires
        0 < m <= 0x1_0000_0000,
        -0x4000_0000_0000_0000 <= a <= 0x4000_0000_0000_0000,
    ensures
        r == (a as int) % (m as int),
        0 <= r < m,
{
    let q: i64 = floor_div(a, m);
    proof {
        lemma_floor_div_bounds(a as int, m as int);
    }
    a - q * m
}

pub proof fn lemma_floor_div_bounds(a: int, m: int)
    by (nonlinear_arith)
    requires
        0 < m,
    ensures
        a % m == a - (a / m) * m,
        0 <= a % m < m,
        sabs((a / m) * m) <= sabs(a) + m,
{
}

/// Integer square root of a 64-bit value.
pub fn isqrt64(x: u64) -> (r: u64)
    ensures
        is_sqrt(x as int, r as int),
        r < 0x1_0000_0000,
{
    let mut lo: u64 = 0;
    let mut hi: u64 = 0x1_0000_0000;
    proof {
        assert((0x1_0000_0000 as int) * (0x1_0000_0000 as int) == 0x1_0000_0000_0000_0000) by (nonlinear_arith);
    }
    while hi - lo > 1
        invariant
            lo < hi <= 0x1_0000_0000,
            (lo as int) * (lo as int) <= x as int,
            (x as int) < (hi as int) * (hi as int),
        decreases hi - lo,
    {
        let mid: u64 = lo + (hi - lo) / 2;
        assert((mid as int) * (mid as int) <= 0x1_0000_0000_0000_0000) by (nonlinear_arith)
            requires
                mid <= 0x1_0000_0000,
        ;
        let sq: u128 = (mid as u128) * (mid as u128);
        if sq <= x as u128 {
            lo = mid;
        } else {
            hi = mid;
        }
    }
    lo
}

/// Square root in fixed-point: the integer square root of `v * FX_ONE`,
/// so that the result of a square in `[0, FX_ONE]` stays in `[0, FX_ONE]`.
pub fn sqrt_fx(v: i64) -> (r: i64)
    requires
        0 <= v <= FX_INF,
    ensures
        is_sqrt((v as int) * (FX_ONE as int), r as int),
        r == sqrt_of((v as int) * (FX_ONE as int)),
        0 <= r,
        v <= FX_ONE ==> r <= FX_ONE,
{
    assert((v as int) * (FX_ONE as int) <= (FX_INF as int) * (FX_ONE as int)) by (nonlinear_arith)
        requires
            0 <= v <= FX_INF,
    ;
    let s: u64 = isqrt64((v as u64) * (FX_ONE as u64));
    proof {
        lemma_sqrt_unique((v as int) * (FX_ONE as int), s as int);
        if v <= FX_ONE {
            assert(s as int <= FX_ONE as int) by (nonlinear_arith)
                requires
                    is_sqrt((v as int) * (FX_ONE as int), s as int),
                    0 <= v <= FX_ONE,
            ;
        }
        assert((s as int) * (s as int) <= (FX_INF as int) * (FX_ONE as int)) by (nonlinear_arith)
            requires
                is_sqrt((v as int) * (FX_ONE as int), s as int),
                0 <= v <= FX_INF,
        ;
        assert(s as int <= FX_INF as int) by (nonlinear_arith)
            requires
                (s as int) * (s as int) <= (FX_INF as int) * (FX_ONE as int),
                0 <= s,
        ;
    }
    s as i64
}

/// Clamp `x` into `[lo, hi]`.
pub fn clamp_fx(x: i64, lo: i64, hi: i64) -> (r: i64)
    requires
        lo <= hi,
    ensures
        r == clamp_spec(x as int, lo as int, hi as int),
{
    if x < lo {
        lo
    } else if x > hi {
        hi
    } else {
        x
    }
}

pub open spec fn clamp_spec(x: int, lo: int, hi: int) -> int {
    if x < lo {
        lo
    } else if x > hi {
        hi
    } else {
        x
    }
}

} // verus!
