//! Minimum-image distances under rectangular periodic boundary conditions.
//!
//! Coordinates are fixed-point ticks (see `fixed::SCALE`) and are kept in
//! `[0, length)` on each axis by the callers.
use vstd::prelude::*;
use crate::fixed::spec_tdiv;

verus! {

/// Box edge lengths never exceed this many ticks, so squares of axis
/// separations fit comfortably in 128 bits.
pub const LEN_MAX: i64 = 0x4000_0000_0000;

pub open spec fn spec_abs(a: int) -> int {
    if a < 0 {
        -a
    } else {
        a
    }
}

/// Signed minimum-image separation on one axis: the absolute raw
/// difference, folded back by one box length when it exceeds half the box.
pub open spec fn spec_min_image(x1: int, x2: int, length: int) -> int {
    let d = spec_abs(x1 - x2);
    if d > length / 2 {
        d - length
    } else {
        d
    }
}

/// Minimum-image separation on one axis. The magnitude of the result never
/// exceeds half the box length.
pub fn get_distance_with_pbc(x1: i64, x2: i64, length: i64) -> (d: i64)
    requires
        0 < length <= LEN_MAX,
        0 <= x1 < length,
        0 <= x2 < length,
    ensures
        d == spec_min_image(x1 as int, x2 as int, length as int),
        2 * spec_abs(d as int) <= length,
{
    let raw: i64 = if x1 >= x2 {
        x1 - x2
    } else {
        x2 - x1
    };
    let half: i64 = length / 2;
    if raw > half {
        raw - length
    } else {
        raw
    }
}

/// Squared minimum-image separation between two points, summed per axis.
pub open spec fn spec_dist_sq(
    x1: int, y1: int, z1: int,
    x2: int, y2: int, z2: int,
    bx: int, by: int, bz: int,
) -> int {
    let dx = spec_min_image(x1, x2, bx);
    let dy = spec_min_image(y1, y2, by);
    let dz = spec_min_image(z1, z2, bz);
    dx * dx + dy * dy + dz * dz
}

pub fn get_particle_distance_squared(
    x1: i64, y1: i64, z1: i64,
    x2: i64, y2: i64, z2: i64,
    bx: i64, by: i64, bz: i64,
) -> (r2: u128)
    requires
        0 < bx <= LEN_MAX,
        0 < by <= LEN_MAX,
        0 < bz <= LEN_MAX,
        0 <= x1 < bx && 0 <= x2 < bx,
        0 <= y1 < by && 0 <= y2 < by,
        0 <= z1 < bz && 0 <= z2 < bz,
    ensures
        r2 == spec_dist_sq(
            x1 as int, y1 as int, z1 as int,
            x2 as int, y2 as int, z2 as int,
            bx as int, by as int, bz as int,
        ),
        r2 <= 3 * (LEN_MAX as int) * (LEN_MAX as int),
{
    let dx: i64 = get_distance_with_pbc(x1, x2, bx);
    let dy: i64 = get_distance_with_pbc(y1, y2, by);
    let dz: i64 = get_distance_with_pbc(z1, z2, bz);
    proof {
        lemma_square_bound(dx as int, LEN_MAX as int);
        lemma_square_bound(dy as int, LEN_MAX as int);
        lemma_square_bound(dz as int, LEN_MAX as int);
    }
    let dx2: i128 = (dx as i128) * (dx as i128);
    let dy2: i128 = (dy as i128) * (dy as i128);
    let dz2: i128 = (dz as i128) * (dz as i128);
    (dx2 + dy2 + dz2) as u128
}

/// A square is nonnegative and monotone in the magnitude of its root.
pub proof fn lemma_square_bound(d: int, m: int)
    requires
        0 <= m,
        spec_abs(d) <= m,
    ensures
        0 <= d * d <= m * m,
{
    assert(0 <= d * d <= m * m) by (nonlinear_arith)
        requires
            -m <= d <= m,
    ;
}

/// Wrap a coordinate that left the box by at most one box length back into
/// `[0, length)`.
pub open spec fn spec_wrap(c: int, length: int) -> int {
    if c < 0 {
        c + length
    } else if c >= length {
        c - length
    } else {
        c
    }
}

pub fn wrap_coordinate(c: i64, length: i64) -> (w: i64)
    requires
        0 < length <= LEN_MAX,
        -length <= c < 2 * length,
    ensures
        w == spec_wrap(c as int, length as int),
        0 <= w < length,
{
    if c < 0 {
        c + length
    } else if c >= length {
        c - length
    } else {
        c
    }
}

/// Convert a uniform draw below `SCALE` and the current displacement into
/// a signed trial offset in `[-displacement/2, displacement/2)`.
pub open spec fn spec_trial_offset(draw: int, displacement: int) -> int {
    spec_tdiv((draw - (crate::fixed::SCALE as int) / 2) * displacement, crate::fixed::SCALE as int)
}

pub fn trial_offset(draw: u64, displacement: i64) -> (off: i64)
    requires
        draw < crate::fixed::SCALE,
        0 < displacement <= LEN_MAX,
    ensures
        off == spec_trial_offset(draw as int, displacement as int),
        2 * spec_abs(off as int) <= displacement,
{
    let centered: i128 = (draw as i128) - ((crate::fixed::SCALE / 2) as i128);
    proof {
        assert({
            let p = (centered as int) * (displacement as int);
            -(500_000int * (LEN_MAX as int)) <= p <= 500_000int * (LEN_MAX as int)
        }) by (nonlinear_arith)
            requires
                -500_000 <= centered <= 500_000,
                0 < displacement <= LEN_MAX,
        ;
    }
    let prod: i128 = centered * (displacement as i128);
    proof {
        assert(spec_abs(prod as int) <= 500_000int * (displacement as int)) by (nonlinear_arith)
            requires
                prod == (centered as int) * (displacement as int),
                -500_000 <= centered <= 500_000,
                0 < displacement,
        ;
    }
    let off128: i128 = crate::fixed::tdiv128(prod, crate::fixed::SCALE as i128);
    proof {
        lemma_offset_bound(prod as int, displacement as int);
    }
    off128 as i64
}

/// Dividing a product bounded by `(SCALE/2) * displacement` by `SCALE`
/// leaves a magnitude of at most half the displacement.
proof fn lemma_offset_bound(prod: int, displacement: int)
    requires
        0 < displacement,
        spec_abs(prod) <= ((crate::fixed::SCALE / 2) as int) * displacement,
    ensures
        2 * spec_abs(spec_tdiv(prod, crate::fixed::SCALE as int)) <= displacement,
{
    let s = crate::fixed::SCALE as int;
    let h = s / 2;
    if prod >= 0 {
        assert(prod / s <= (h * displacement) / s) by (nonlinear_arith)
            requires
                0 <= prod <= h * displacement,
                s > 0,
        ;
        assert((h * displacement) * 2 <= displacement * s) by (nonlinear_arith)
            requires
                h == s / 2,
                s == 1_000_000,
                displacement > 0,
        ;
        assert(2 * (prod / s) <= displacement) by (nonlinear_arith)
            requires
                prod / s <= (h * displacement) / s,
                (h * displacement) * 2 <= displacement * s,
                s > 0,
                0 <= prod,
        ;
    } else {
        let p = -prod;
        assert(p / s <= (h * displacement) / s) by (nonlinear_arith)
            requires
                0 <= p <= h * displacement,
                s > 0,
        ;
        assert((h * displacement) * 2 <= displacement * s) by (nonlinear_arith)
            requires
                h == s / 2,
                s == 1_000_000,
                displacement > 0,
        ;
        assert(2 * (p / s) <= displacement) by (nonlinear_arith)
            requires
                p / s <= (h * displacement) / s,
                (h * displacement) * 2 <= displacement * s,
                s > 0,
                0 <= p,
        ;
    }
}

} // verus!
