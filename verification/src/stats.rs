//! Running-average bookkeeping: phase-window averages, acceptance ratio
//! and the final pressure derivation from the sampled virial.
use vstd::prelude::*;
use crate::fixed::{SCALE, SAT_MAX, spec_tdiv, spec_sat_mul, tdiv128, sat_mul};
use crate::geometry::LEN_MAX;

verus! {

/// The window average of an accumulated sum over `count` entries
/// (truncating division, as everywhere in this library).
pub fn average(sum: i128, count: u64) -> (a: i128)
    requires
        0 < count,
        -SAT_MAX <= sum <= SAT_MAX,
    ensures
        a == spec_tdiv(sum as int, count as int),
{
    tdiv128(sum, count as i128)
}

/// Accepted moves per thousand trials.
pub fn acceptance_per_mille(accepts: u64, steps: u64) -> (a: u64)
    requires
        0 < steps,
        accepts <= steps,
    ensures
        a == 1000 * (accepts as int) / (steps as int),
        a <= 1000,
{
    proof {
        assert(1000 * (accepts as int) / (steps as int) <= 1000) by (nonlinear_arith)
            requires
                0 < steps,
                0 <= accepts <= steps,
        ;
    }
    let w: u128 = 1000 * (accepts as u128) / (steps as u128);
    w as u64
}

/// Box volume in ticks from the three edge lengths in ticks.
pub open spec fn spec_volume(lx: int, ly: int, lz: int) -> int {
    spec_tdiv(spec_tdiv(lx * ly, SCALE as int) * lz, SCALE as int)
}

pub fn volume_of_box(lx: i64, ly: i64, lz: i64) -> (v: i128)
    requires
        0 < lx <= LEN_MAX,
        0 < ly <= LEN_MAX,
        0 < lz <= LEN_MAX,
    ensures
        v == spec_volume(lx as int, ly as int, lz as int),
        0 <= v <= SAT_MAX,
{
    proof {
        assert(0 <= (lx as int) * (ly as int) <= 5_000_000_000_000_000_000_000_000_000int)
            by (nonlinear_arith)
            requires
                0 < lx <= 0x4000_0000_0000i64,
                0 < ly <= 0x4000_0000_0000i64,
        ;
    }
    let a: i128 = (lx as i128) * (ly as i128);
    let b: i128 = tdiv128(a, SCALE as i128);
    proof {
        crate::potential::lemma_tdiv_bound(
            a as int, SCALE as int, 5_000_000_000_000_000_000_000_000_000int);
        assert(5_000_000_000_000_000_000_000_000_000int / 1_000_000int
            == 5_000_000_000_000_000_000_000int);
        assert(0 <= (b as int) * (lz as int) <= 1_000_000_000_000_000_000_000_000_000_000_000_000int)
            by (nonlinear_arith)
            requires
                0 <= b <= 5_000_000_000_000_000_000_000i128,
                0 < lz <= 0x4000_0000_0000i64,
        ;
    }
    let c: i128 = b * (lz as i128);
    tdiv128(c, SCALE as i128)
}

/// The final pressure estimate: the sampled virial average over three
/// volumes, plus the ideal term `density * temperature`, plus the
/// configured pressure tail correction. The virial average is saturated
/// at `FACTOR_MAX` before scaling, which only matters far outside any
/// physical range.
pub open spec fn spec_pressure(
    virial_sum: int,
    steps: int,
    volume: int,
    density: int,
    temperature: int,
    p_corr: int,
) -> int {
    spec_tdiv(spec_sat_mul(spec_tdiv(virial_sum, steps), SCALE as int), 3 * volume) + spec_tdiv(
        density * temperature,
        SCALE as int,
    ) + p_corr
}

pub fn pressure(
    virial_sum: i128,
    steps: u64,
    volume: i128,
    density: u64,
    temperature: u64,
    p_corr: i128,
) -> (p: i128)
    requires
        0 < steps,
        0 < volume <= SAT_MAX,
        -SAT_MAX <= virial_sum <= SAT_MAX,
        density <= 10 * SCALE,
        0 < temperature <= 1000 * SCALE,
        -SAT_MAX <= p_corr <= SAT_MAX,
    ensures
        p == spec_pressure(
            virial_sum as int,
            steps as int,
            volume as int,
            density as int,
            temperature as int,
            p_corr as int,
        ),
{
    let t: i128 = tdiv128(virial_sum, steps as i128);
    let m: i128 = sat_mul(t, SCALE as i128);
    let term1: i128 = tdiv128(m, 3 * volume);
    proof {
        assert(0 <= (density as int) * (temperature as int) <= 0x10000000000000000000int)
            by (nonlinear_arith)
            requires
                0 <= density <= 10_000_000,
                0 < temperature <= 1_000_000_000,
        ;
    }
    let term2: i128 = tdiv128((density as i128) * (temperature as i128), SCALE as i128);
    term1 + term2 + p_corr
}

} // verus!
