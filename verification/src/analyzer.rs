//! Surface-tension analysis over recorded trajectory frames: per-frame
//! pressure-tensor traces from the pairwise virial (without cutoff
//! truncation: the full pairwise contribution enters the pressure tensor),
//! cumulative running
//! averages of the lateral and normal pressures, and the mechanical
//! surface tension from their anisotropy.
use vstd::prelude::*;
use crate::fixed::{
    SCALE, SAT_MAX, spec_tdiv, spec_sat_mul, spec_sat_add, spec_isqrt, tdiv128, sat_mul, sat_add,
    isqrt,
};
use crate::geometry::{LEN_MAX, spec_min_image, get_distance_with_pbc};
use crate::trajectory::{Frame, spec_frame_wf};

verus! {

/// The Lennard-Jones pairwise virial at the given separation in ticks,
/// for unit `eps` and `sigma`: `24 * ((1/d)^7 - 2 * (1/d)^13)`. The
/// inverse separation saturates at one hundred; a zero separation (a
/// coincident, degenerate pair) contributes zero by policy.
pub open spec fn spec_get_virial(distance: int) -> int {
    if distance <= 0 {
        0
    } else {
        let s = SCALE as int;
        let t0 = s * s / distance;
        let t = if t0 > 100 * s {
            100 * s
        } else {
            t0
        };
        let t2 = t * t / s;
        let t4 = t2 * t2 / s;
        let t6 = t4 * t2 / s;
        let t7 = t6 * t / s;
        let t12 = t6 * t6 / s;
        let t13 = t12 * t / s;
        24 * (t7 - 2 * t13)
    }
}

/// Executable pairwise virial; exact with respect to its fixed-point
/// definition and bounded for any separation.
pub fn get_virial(distance: i64) -> (v: i128)
    ensures
        v == spec_get_virial(distance as int),
        -100_000_000_000_000_000_000_000_000_000_000_000 <= v
            <= 100_000_000_000_000_000_000_000_000_000_000_000,
{
    if distance <= 0 {
        return 0;
    }
    let s: u128 = SCALE as u128;
    let t0: u128 = s * s / (distance as u128);
    let t: u128 = if t0 > 100 * s {
        100 * s
    } else {
        t0
    };
    proof {
        lemma_virial_powers(t as int);
    }
    let t2: u128 = t * t / s;
    let t4: u128 = t2 * t2 / s;
    let t6: u128 = t4 * t2 / s;
    let t7: u128 = t6 * t / s;
    let t12: u128 = t6 * t6 / s;
    let t13: u128 = t12 * t / s;
    let inner: i128 = (t7 as i128) - 2 * (t13 as i128);
    24 * inner
}

/// Magnitude chain for the virial powers: with the inverse separation at
/// most one hundred units, each staged power stays in range.
proof fn lemma_virial_powers(t: int)
    requires
        0 <= t <= 100_000_000,
    ensures
        ({
            let s = SCALE as int;
            let t2 = t * t / s;
            let t4 = t2 * t2 / s;
            let t6 = t4 * t2 / s;
            let t7 = t6 * t / s;
            let t12 = t6 * t6 / s;
            let t13 = t12 * t / s;
            0 <= t * t <= 10_000_000_000_000_000 && 0 <= t2 <= 10_000_000_000 && 0 <= t2 * t2
                <= 100_000_000_000_000_000_000 && 0 <= t4 <= 100_000_000_000_000 && 0 <= t4 * t2
                <= 1_000_000_000_000_000_000_000_000 && 0 <= t6 <= 1_000_000_000_000_000_000 && 0
                <= t6 * t <= 100_000_000_000_000_000_000_000_000 && 0 <= t7
                <= 100_000_000_000_000_000_000 && 0 <= t6 * t6
                <= 1_000_000_000_000_000_000_000_000_000_000_000_000 && 0 <= t12
                <= 1_000_000_000_000_000_000_000_000_000_000 && 0 <= t12 * t
                <= 100_000_000_000_000_000_000_000_000_000_000_000_000 && 0 <= t13
                <= 100_000_000_000_000_000_000_000_000_000_000
        }),
{
    let s = SCALE as int;
    lemma_pow_step(t, t, 100_000_000, 100_000_000, 10_000_000_000);
    let t2 = t * t / s;
    lemma_pow_step(t2, t2, 10_000_000_000, 10_000_000_000, 100_000_000_000_000);
    let t4 = t2 * t2 / s;
    lemma_pow_step(t4, t2, 100_000_000_000_000, 10_000_000_000, 1_000_000_000_000_000_000);
    let t6 = t4 * t2 / s;
    lemma_pow_step(t6, t, 1_000_000_000_000_000_000, 100_000_000, 100_000_000_000_000_000_000);
    lemma_pow_step(
        t6,
        t6,
        1_000_000_000_000_000_000,
        1_000_000_000_000_000_000,
        1_000_000_000_000_000_000_000_000_000_000,
    );
    let t12 = t6 * t6 / s;
    lemma_pow_step(
        t12,
        t,
        1_000_000_000_000_000_000_000_000_000_000,
        100_000_000,
        100_000_000_000_000_000_000_000_000_000_000,
    );
}

/// One staged power step: a product of bounded factors divided by the
/// scale.
proof fn lemma_pow_step(a: int, b: int, ba: int, bb: int, q: int)
    requires
        0 <= a <= ba,
        0 <= b <= bb,
        ba * bb == q * (SCALE as int),
        0 <= q,
    ensures
        0 <= a * b <= ba * bb,
        0 <= a * b / (SCALE as int) <= q,
{
    assert(0 <= a * b <= ba * bb) by (nonlinear_arith)
        requires
            0 <= a <= ba,
            0 <= b <= bb,
    ;
    vstd::arithmetic::div_mod::lemma_div_is_ordered(a * b, ba * bb, SCALE as int);
    vstd::arithmetic::div_mod::lemma_div_pos_is_pos(a * b, SCALE as int);
    assert((ba * bb) / (SCALE as int) == q) by (nonlinear_arith)
        requires
            ba * bb == q * (SCALE as int),
            SCALE == 1_000_000u64,
            0 <= q,
    ;
}

/// The contribution of one particle pair to a pressure-tensor trace:
/// the squared lateral (or normal) separation over the distance, times
/// the pairwise virial, in ticks.
pub open spec fn spec_pair_trace(f: Frame, i: int, j: int, xy: bool) -> int {
    let dx = spec_min_image(f.rx@[i] as int, f.rx@[j] as int, f.box_x as int);
    let dy = spec_min_image(f.ry@[i] as int, f.ry@[j] as int, f.box_y as int);
    let dz = spec_min_image(f.rz@[i] as int, f.rz@[j] as int, f.box_z as int);
    let d = spec_isqrt(dx * dx + dy * dy + dz * dz);
    if d <= 0 {
        0
    } else {
        let num = if xy {
            dx * dx + dy * dy
        } else {
            dz * dz
        };
        spec_tdiv(spec_sat_mul(spec_tdiv(num, d), spec_get_virial(d)), SCALE as int)
    }
}

/// Saturated sum of the trace contributions of particle `i` against the
/// particles below `m`.
pub open spec fn spec_trace_row(f: Frame, i: int, m: int, xy: bool) -> int
    decreases m,
{
    if m <= 0 {
        0
    } else {
        spec_sat_add(spec_trace_row(f, i, m - 1, xy), spec_pair_trace(f, i, m - 1, xy))
    }
}

/// Saturated sum of the trace contributions over all unique pairs below
/// `m`.
pub open spec fn spec_trace_upto(f: Frame, m: int, xy: bool) -> int
    decreases m,
{
    if m <= 0 {
        0
    } else {
        spec_sat_add(spec_trace_upto(f, m - 1, xy), spec_trace_row(f, m - 1, m - 1, xy))
    }
}

/// The two pressure-tensor traces of one frame, over all unique pairs.
pub fn frame_traces(f: &Frame) -> (traces: (i128, i128))
    requires
        spec_frame_wf(*f),
    ensures
        traces.0 == spec_trace_upto(*f, f.num_particles as int, true),
        traces.1 == spec_trace_upto(*f, f.num_particles as int, false),
        -SAT_MAX <= traces.0 <= SAT_MAX,
        -SAT_MAX <= traces.1 <= SAT_MAX,
{
    let n: usize = f.num_particles;
    let mut txy: i128 = 0;
    let mut tz: i128 = 0;
    let mut i: usize = 0;
    while i < n
        invariant
            spec_frame_wf(*f),
            i <= n,
            n == f.num_particles,
            txy == spec_trace_upto(*f, i as int, true),
            tz == spec_trace_upto(*f, i as int, false),
            -SAT_MAX <= txy <= SAT_MAX,
            -SAT_MAX <= tz <= SAT_MAX,
        decreases n - i,
    {
        let mut rxy: i128 = 0;
        let mut rz_: i128 = 0;
        let mut j: usize = 0;
        while j < i
            invariant
                spec_frame_wf(*f),
                j <= i < n,
                n == f.num_particles,
                rxy == spec_trace_row(*f, i as int, j as int, true),
                rz_ == spec_trace_row(*f, i as int, j as int, false),
                -SAT_MAX <= rxy <= SAT_MAX,
                -SAT_MAX <= rz_ <= SAT_MAX,
            decreases i - j,
        {
            proof {
                assert(0 <= f.ry@[i as int] && 0 <= f.ry@[j as int] && 0 <= f.rz@[i as int] && 0
                    <= f.rz@[j as int]) by {
                    assert(0 <= f.rx@[i as int] < f.box_x);
                    assert(0 <= f.rx@[j as int] < f.box_x);
                }
            }
            let dx: i64 = get_distance_with_pbc(f.rx[i], f.rx[j], f.box_x);
            let dy: i64 = get_distance_with_pbc(f.ry[i], f.ry[j], f.box_y);
            let dz: i64 = get_distance_with_pbc(f.rz[i], f.rz[j], f.box_z);
            proof {
                crate::geometry::lemma_square_bound(dx as int, LEN_MAX as int);
                crate::geometry::lemma_square_bound(dy as int, LEN_MAX as int);
                crate::geometry::lemma_square_bound(dz as int, LEN_MAX as int);
            }
            let dx2: i128 = (dx as i128) * (dx as i128);
            let dy2: i128 = (dy as i128) * (dy as i128);
            let dz2: i128 = (dz as i128) * (dz as i128);
            let r2: u128 = (dx2 + dy2 + dz2) as u128;
            let d64: u64 = isqrt(r2);
            let d: i64 = d64 as i64;
            proof {
                assert((d64 as int) * (d64 as int) <= r2 < 0x10000000000000000000000000int);
                assert(d64 < 0x4_0000_0000_0000u64) by (nonlinear_arith)
                    requires
                        (d64 as int) * (d64 as int) < 0x10000000000000000000000000int,
                ;
            }
            let (pxy, pz): (i128, i128) = if d <= 0 {
                (0, 0)
            } else {
                let vir: i128 = get_virial(d);
                let qxy: i128 = tdiv128(dx2 + dy2, d as i128);
                let qz: i128 = tdiv128(dz2, d as i128);
                let txy_term: i128 = tdiv128(sat_mul(qxy, vir), SCALE as i128);
                let tz_term: i128 = tdiv128(sat_mul(qz, vir), SCALE as i128);
                (txy_term, tz_term)
            };
            rxy = sat_add(rxy, pxy);
            rz_ = sat_add(rz_, pz);
            j = j + 1;
        }
        txy = sat_add(txy, rxy);
        tz = sat_add(tz, rz_);
        i = i + 1;
    }
    (txy, tz)
}

/// The scaled ideal-gas term `temperature / eps * density` of one frame,
/// with the density derived from the particle count and box volume (a
/// degenerate zero volume is clamped to one tick).
pub open spec fn spec_ideal_term(f: Frame) -> int {
    let vol0 = crate::stats::spec_volume(f.box_x as int, f.box_y as int, f.box_z as int);
    let vol = if vol0 < 1 {
        1
    } else {
        vol0
    };
    let density = spec_tdiv(
        (f.num_particles as int) * (SCALE as int) * (SCALE as int),
        vol,
    );
    spec_tdiv(spec_sat_mul(f.temperature as int, density), f.eps as int)
}

/// The lateral (`xy`) or normal (`z`) pressure of one frame.
pub open spec fn spec_frame_pressure(f: Frame, xy: bool) -> int {
    let vol0 = crate::stats::spec_volume(f.box_x as int, f.box_y as int, f.box_z as int);
    let vol = if vol0 < 1 {
        1
    } else {
        vol0
    };
    if xy {
        spec_ideal_term(f) - spec_tdiv(
            spec_sat_mul(spec_trace_upto(f, f.num_particles as int, true), SCALE as int),
            2 * vol,
        )
    } else {
        spec_ideal_term(f) - spec_tdiv(
            spec_sat_mul(spec_trace_upto(f, f.num_particles as int, false), SCALE as int),
            vol,
        )
    }
}

/// Cumulative (never reset) accumulator of the per-frame lateral and
/// normal pressures.
pub struct SurfaceTensionAnalyzer {
    pub frame_count: u64,
    pub p_xy_sum: i128,
    pub p_z_sum: i128,
}

impl SurfaceTensionAnalyzer {
    pub open spec fn wf(self) -> bool {
        &&& -SAT_MAX <= self.p_xy_sum <= SAT_MAX
        &&& -SAT_MAX <= self.p_z_sum <= SAT_MAX
    }

    pub fn new() -> (a: SurfaceTensionAnalyzer)
        ensures
            a.wf(),
            a.frame_count == 0 && a.p_xy_sum == 0 && a.p_z_sum == 0,
    {
        SurfaceTensionAnalyzer { frame_count: 0, p_xy_sum: 0, p_z_sum: 0 }
    }

    /// Fold one frame into the running pressure sums.
    pub fn process_frame(&mut self, f: &Frame)
        requires
            old(self).wf(),
            old(self).frame_count < 0x1000_0000_0000_0000,
            spec_frame_wf(*f),
            0 < f.eps,
        ensures
            final(self).wf(),
            final(self).frame_count == old(self).frame_count + 1,
            final(self).p_xy_sum == spec_sat_add(
                old(self).p_xy_sum as int,
                spec_frame_pressure(*f, true),
            ),
            final(self).p_z_sum == spec_sat_add(
                old(self).p_z_sum as int,
                spec_frame_pressure(*f, false),
            ),
    {
        let (txy, tz) = frame_traces(f);
        let vol0: i128 = crate::stats::volume_of_box(f.box_x, f.box_y, f.box_z);
        let vol: i128 = if vol0 < 1 {
            1
        } else {
            vol0
        };
        proof {
            assert(0 <= (f.num_particles as int) * (SCALE as int) * (SCALE as int)
                <= 1_000_000_000_000_000_000_000_000int && 0 <= (f.num_particles as int) * (
            SCALE as int)) by (nonlinear_arith)
                requires
                    0 <= f.num_particles <= 1_000_000,
                    SCALE == 1_000_000u64,
            ;
        }
        let density: i128 = tdiv128(
            (f.num_particles as i128) * (SCALE as i128) * (SCALE as i128),
            vol,
        );
        let ideal: i128 = tdiv128(sat_mul(f.temperature as i128, density), f.eps as i128);
        let pxy: i128 = ideal - tdiv128(sat_mul(txy, SCALE as i128), 2 * vol);
        let pz: i128 = ideal - tdiv128(sat_mul(tz, SCALE as i128), vol);
        self.p_xy_sum = sat_add(self.p_xy_sum, pxy);
        self.p_z_sum = sat_add(self.p_z_sum, pz);
        self.frame_count = self.frame_count + 1;
    }

    /// Running average of the lateral pressure.
    pub fn average_pxy(&self) -> (a: i128)
        requires
            self.wf(),
            0 < self.frame_count,
        ensures
            a == spec_tdiv(self.p_xy_sum as int, self.frame_count as int),
    {
        tdiv128(self.p_xy_sum, self.frame_count as i128)
    }

    /// Running average of the normal pressure.
    pub fn average_pzz(&self) -> (a: i128)
        requires
            self.wf(),
            0 < self.frame_count,
        ensures
            a == spec_tdiv(self.p_z_sum as int, self.frame_count as int),
    {
        tdiv128(self.p_z_sum, self.frame_count as i128)
    }
}

/// The mechanical surface tension `(box_z / 2) * (p_zz - p_xy)` in ticks.
pub open spec fn spec_eval_surface_tension(box_z: int, p_zz: int, p_xy: int) -> int {
    spec_tdiv(spec_sat_mul(box_z, p_zz - p_xy), 2 * (SCALE as int))
}

pub fn eval_surface_tension(box_z: i64, p_zz: i128, p_xy: i128) -> (gamma: i128)
    requires
        0 < box_z <= LEN_MAX,
        -SAT_MAX <= p_zz <= SAT_MAX,
        -SAT_MAX <= p_xy <= SAT_MAX,
    ensures
        gamma == spec_eval_surface_tension(box_z as int, p_zz as int, p_xy as int),
{
    tdiv128(sat_mul(box_z as i128, p_zz - p_xy), 2 * (SCALE as i128))
}

} // verus!
