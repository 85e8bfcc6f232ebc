//! Fixed-point arithmetic kernel.
//!
//! Every physical quantity in this library (length, energy, temperature,
//! pressure) is carried as an integer holding the quantity times `SCALE`.
//! Working over integers keeps every operation exact and total, so the
//! bookkeeping of the sampling engine can be verified without any appeal
//! to rounding behaviour.
use vstd::prelude::*;

verus! {

/// One physical unit equals `SCALE` integer ticks.
pub const SCALE: u64 = 1_000_000;

/// ln(2) in ticks, rounded down.
pub const LN2_FP: u64 = 693_147;

/// Number of Taylor terms used by `exp_neg_fp`.
pub const EXP_TERMS: u64 = 12;

/// Saturation bound for accumulated sums (see `sat_add`, `sat_mul`).
pub const SAT_MAX: i128 = 1_000_000_000_000_000_000_000_000_000_000_000_000;

/// Saturation bound for factors entering a product.
pub const FACTOR_MAX: i128 = 1_000_000_000_000_000_000;

/// Clamp `a` into the band `[-m, m]`.
pub open spec fn spec_clamp(a: int, m: int) -> int {
    if a > m {
        m
    } else if a < -m {
        -m
    } else {
        a
    }
}

/// Truncating signed division (round toward zero), the convention every
/// division in this library follows.
pub open spec fn spec_tdiv(a: int, d: int) -> int {
    if a >= 0 {
        a / d
    } else {
        -((-a) / d)
    }
}

pub fn clamp_i128(a: i128, m: i128) -> (r: i128)
    requires
        0 < m,
    ensures
        r == spec_clamp(a as int, m as int),
        -m <= r <= m,
{
    if a > m {
        m
    } else if a < -m {
        -m
    } else {
        a
    }
}

/// Product with both factors saturated at `FACTOR_MAX`, so the result is
/// exact whenever the inputs are in range and bounded otherwise.
pub open spec fn spec_sat_mul(a: int, b: int) -> int {
    spec_clamp(a, FACTOR_MAX as int) * spec_clamp(b, FACTOR_MAX as int)
}

pub fn sat_mul(a: i128, b: i128) -> (r: i128)
    ensures
        r == spec_sat_mul(a as int, b as int),
        -SAT_MAX <= r <= SAT_MAX,
{
    let ca: i128 = clamp_i128(a, FACTOR_MAX);
    let cb: i128 = clamp_i128(b, FACTOR_MAX);
    proof {
        assert(-SAT_MAX <= ca * cb <= SAT_MAX) by (nonlinear_arith)
            requires
                -FACTOR_MAX <= ca <= FACTOR_MAX,
                -FACTOR_MAX <= cb <= FACTOR_MAX,
                SAT_MAX == FACTOR_MAX * FACTOR_MAX,
        ;
    }
    ca * cb
}

/// Sum saturated at `SAT_MAX`; used for long-running accumulators.
pub open spec fn spec_sat_add(a: int, b: int) -> int {
    spec_clamp(a + b, SAT_MAX as int)
}

pub fn sat_add(a: i128, b: i128) -> (r: i128)
    requires
        -SAT_MAX <= a <= SAT_MAX,
        -SAT_MAX - SAT_MAX <= b <= SAT_MAX + SAT_MAX,
    ensures
        r == spec_sat_add(a as int, b as int),
        -SAT_MAX <= r <= SAT_MAX,
{
    clamp_i128(a + b, SAT_MAX)
}

pub fn tdiv128(a: i128, d: i128) -> (r: i128)
    requires
        0 < d,
        a != i128::MIN,
    ensures
        r == spec_tdiv(a as int, d as int),
        a >= 0 ==> 0 <= r <= a,
        a < 0 ==> a <= r <= 0,
{
    if a < 0 {
        let m: u128 = (-a) as u128;
        let q: u128 = m / (d as u128);
        assert(q <= m) by (nonlinear_arith)
            requires
                q == m / (d as u128),
                d >= 1,
        ;
        -(q as i128)
    } else {
        let q: u128 = (a as u128) / (d as u128);
        assert(q <= a as u128) by (nonlinear_arith)
            requires
                q == (a as u128) / (d as u128),
                d >= 1,
        ;
        q as i128
    }
}

/// The integer square root as a value: the unique nonnegative `r` with
/// `r * r <= n < (r + 1) * (r + 1)`.
pub open spec fn spec_isqrt(n: int) -> int {
    choose|r: int| 0 <= r && #[trigger] (r * r) <= n < (r + 1) * (r + 1)
}

/// Any witness of the square-root property is the `spec_isqrt` value.
pub proof fn lemma_isqrt_unique(n: int, r: int)
    requires
        0 <= r,
        r * r <= n,
        n < (r + 1) * (r + 1),
    ensures
        spec_isqrt(n) == r,
{
    let c = spec_isqrt(n);
    assert(0 <= c && c * c <= n < (c + 1) * (c + 1)) by {
        assert(exists|q: int| 0 <= q && #[trigger] (q * q) <= n < (q + 1) * (q + 1)) by {
            assert(0 <= r && r * r <= n < (r + 1) * (r + 1));
        }
    }
    assert(c == r) by (nonlinear_arith)
        requires
            0 <= r,
            r * r <= n < (r + 1) * (r + 1),
            0 <= c,
            c * c <= n < (c + 1) * (c + 1),
    ;
}

/// Integer square root: the greatest `r` with `r * r <= n`.
pub fn isqrt(n: u128) -> (r: u64)
    ensures
        (r as int) * (r as int) <= n as int,
        n < ((r + 1) as int) * ((r + 1) as int),
        r == spec_isqrt(n as int),
{
    let mut lo: u128 = 0;
    let mut hi: u128 = 0x1_0000_0000_0000_0000;
    proof {
        assert(n < hi as int * hi as int) by (nonlinear_arith)
            requires
                hi == 0x1_0000_0000_0000_0000u128,
                n <= u128::MAX,
        ;
    }
    while lo + 1 < hi
        invariant
            lo < hi <= 0x1_0000_0000_0000_0000,
            lo as int * lo as int <= n as int,
            (n as int) < hi as int * hi as int,
        decreases hi - lo,
    {
        let mid: u128 = lo + (hi - lo) / 2;
        proof {
            assert(mid * mid <= u128::MAX) by (nonlinear_arith)
                requires
                    mid < 0x1_0000_0000_0000_0000u128,
            ;
        }
        if mid * mid <= n {
            lo = mid;
        } else {
            hi = mid;
        }
    }
    proof {
        assert(lo < 0x1_0000_0000_0000_0000u128);
        lemma_isqrt_unique(n as int, lo as int);
    }
    lo as u64
}

/// The integer cube root as a value: the unique nonnegative `r` with
/// `r * r * r <= n < (r + 1) * (r + 1) * (r + 1)`.
pub open spec fn spec_icbrt(n: int) -> int {
    choose|r: int| 0 <= r && #[trigger] (r * r * r) <= n < (r + 1) * (r + 1) * (r + 1)
}

/// Any witness of the cube-root property is the `spec_icbrt` value.
pub proof fn lemma_icbrt_unique(n: int, r: int)
    requires
        0 <= r,
        r * r * r <= n,
        n < (r + 1) * (r + 1) * (r + 1),
    ensures
        spec_icbrt(n) == r,
{
    let c = spec_icbrt(n);
    assert(0 <= c && c * c * c <= n < (c + 1) * (c + 1) * (c + 1)) by {
        assert(exists|q: int| 0 <= q && #[trigger] (q * q * q) <= n < (q + 1) * (q + 1) * (q + 1))
            by {
            assert(0 <= r && r * r * r <= n < (r + 1) * (r + 1) * (r + 1));
        }
    }
    assert(c == r) by (nonlinear_arith)
        requires
            0 <= r,
            r * r * r <= n < (r + 1) * (r + 1) * (r + 1),
            0 <= c,
            c * c * c <= n < (c + 1) * (c + 1) * (c + 1),
    ;
}

/// Integer cube root: the greatest `r` with `r * r * r <= n`.
pub fn icbrt(n: u128) -> (r: u64)
    requires
        n < 0x4000_0000_0000_0000_0000_0000_0000_0000,
    ensures
        (r as int) * (r as int) * (r as int) <= n as int,
        n < ((r + 1) as int) * ((r + 1) as int) * ((r + 1) as int),
        r == spec_icbrt(n as int),
{
    let mut lo: u128 = 0;
    let mut hi: u128 = 0x400_0000_0000;
    proof {
        assert(n < hi as int * hi as int * hi as int) by (nonlinear_arith)
            requires
                hi == 0x400_0000_0000u128,
                n < 0x4000_0000_0000_0000_0000_0000_0000_0000,
        ;
    }
    while lo + 1 < hi
        invariant
            lo < hi <= 0x400_0000_0000,
            lo as int * lo as int * lo as int <= n as int,
            (n as int) < hi as int * hi as int * hi as int,
        decreases hi - lo,
    {
        let mid: u128 = lo + (hi - lo) / 2;
        proof {
            assert(mid * mid <= 0x10_0000_0000_0000_0000_0000 && mid * mid * mid <= u128::MAX)
                by (nonlinear_arith)
                requires
                    mid <= 0x400_0000_0000u128,
            ;
        }
        if mid * mid * mid <= n {
            lo = mid;
        } else {
            hi = mid;
        }
    }
    proof {
        lemma_icbrt_unique(n as int, lo as int);
    }
    lo as u64
}

/// Taylor evaluation of `exp(-r)` in Horner form, `j` steps out of
/// `EXP_TERMS`, over ticks. The defensive zero branch never fires for
/// `r <= LN2_FP` but keeps the definition total.
pub open spec fn spec_exp_taylor(r: int, j: nat) -> int
    decreases j,
{
    if j == 0 {
        SCALE as int
    } else {
        let t = r * spec_exp_taylor(r, (j - 1) as nat) / ((EXP_TERMS - j + 1) * SCALE);
        if t >= SCALE {
            0
        } else if t < 0 {
            SCALE as int
        } else {
            SCALE - t
        }
    }
}

fn exp_taylor(r: u64, j: u64) -> (e: u64)
    requires
        r <= LN2_FP,
        j <= EXP_TERMS,
    ensures
        e == spec_exp_taylor(r as int, j as nat),
        e <= SCALE,
    decreases j,
{
    if j == 0 {
        SCALE
    } else {
        let prev: u64 = exp_taylor(r, j - 1);
        proof {
            assert(r as int * prev as int <= 693_147 * 1_000_000) by (nonlinear_arith)
                requires
                    r <= 693_147,
                    prev <= 1_000_000,
            ;
        }
        let t: u64 = (r * prev) / ((EXP_TERMS - j + 1) * SCALE);
        if t >= SCALE {
            0
        } else {
            SCALE - t
        }
    }
}

/// `exp(-x)` over ticks: the argument and the result both carry `SCALE`.
/// Arguments at or above `44 * SCALE` yield 0 (the true value is far below
/// one tick there).
pub open spec fn spec_exp_neg(x: int) -> int {
    if x >= 44 * SCALE {
        0
    } else {
        spec_halve(spec_exp_taylor(x % (LN2_FP as int), EXP_TERMS as nat), x / (LN2_FP as int))
    }
}

/// Divide by two, `q` times (with a cap that the caller's range makes moot).
pub open spec fn spec_halve(e: int, q: int) -> int
    decreases (if q > 0 { q } else { 0 }),
{
    if q <= 0 {
        e
    } else if q >= 64 {
        0
    } else {
        spec_halve(e / 2, q - 1)
    }
}

pub fn exp_neg_fp(x: u128) -> (r: u64)
    ensures
        r == spec_exp_neg(x as int),
        r <= SCALE,
        x == 0 ==> r == SCALE,
{
    if x >= 44 * (SCALE as u128) {
        proof {
            assert(spec_exp_neg(x as int) == 0);
        }
        0
    } else {
        let q: u128 = x / (LN2_FP as u128);
        let rem: u128 = x % (LN2_FP as u128);
        let mut e: u64 = exp_taylor(rem as u64, EXP_TERMS);
        proof {
            if x == 0 {
                lemma_exp_taylor_zero(EXP_TERMS as nat);
            }
            assert(q == (x as int) / (LN2_FP as int));
            assert(rem == (x as int) % (LN2_FP as int));
        }
        let mut i: u128 = 0;
        while i < q
            invariant
                i <= q,
                q < 64,
                e <= SCALE,
                spec_halve(e as int, (q - i) as int) == spec_halve(
                    spec_exp_taylor((x as int) % (LN2_FP as int), EXP_TERMS as nat),
                    q as int,
                ),
                x == 0 ==> e == SCALE && q == 0,
            decreases q - i,
        {
            e = e / 2;
            i = i + 1;
        }
        e
    }
}

proof fn lemma_exp_taylor_zero(j: nat)
    requires
        j <= EXP_TERMS,
    ensures
        spec_exp_taylor(0, j) == SCALE as int,
    decreases j,
{
    if j > 0 {
        lemma_exp_taylor_zero((j - 1) as nat);
        let d = ((EXP_TERMS - j) as int + 1) * (SCALE as int);
        assert(d > 0) by (nonlinear_arith)
            requires
                (EXP_TERMS - j) as int + 1 >= 1,
                SCALE == 1_000_000u64,
                d == ((EXP_TERMS - j) as int + 1) * (SCALE as int),
        ;
        assert(0 * spec_exp_taylor(0, (j - 1) as nat) == 0);
        assert(0int / d == 0) by (nonlinear_arith)
            requires
                d > 0,
        ;
    }
}

} // verus!
