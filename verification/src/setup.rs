//! Building a simulation: the box edge from particle count and density,
//! random initial placement, the optional vacuum slab, and the assembled
//! engine state.
use vstd::prelude::*;
use crate::fixed::{SCALE, spec_tdiv, tdiv128, icbrt};
use crate::geometry::LEN_MAX;
use crate::potential::{
    SysParams, N_MAX, make_params, get_total_energy, spec_pair_r2, spec_e_corr, spec_p_corr,
};
use crate::engine::{MonteCarlo, Phase};
use crate::rng::draw_below;

verus! {

/// The default checkpoint intervals: displacement scaling every 5000
/// trials during equilibration, total-energy resynchronisation every
/// 10000 trials.
pub const SCALE_INTERVAL: u64 = 5_000;

pub const RESYNC_INTERVAL: u64 = 10_000;

/// Cube edge for `n` particles at the given density, as a value: the
/// integer cube root of the volume `n / density` in ticks, the volume
/// saturated high and the edge kept inside `[2, LEN_MAX / 16]` (the
/// saturation and the clamps are defensive; no physical input reaches
/// them).
pub open spec fn spec_box_length(n: int, density: int) -> int {
    let raw = n * (SCALE as int) * (SCALE as int) / density;
    let v = if raw > 1_000_000_000_000_000_000 {
        1_000_000_000_000_000_000int
    } else {
        raw
    };
    let r = crate::fixed::spec_icbrt(v * (SCALE as int) * (SCALE as int));
    if r < 2 {
        2int
    } else if r > (LEN_MAX / 16) as int {
        (LEN_MAX / 16) as int
    } else {
        r
    }
}

/// Cube edge for `n` particles at the given density (ticks): the cube
/// root of the volume `n / density`, kept inside `[2, LEN_MAX / 16]`.
pub fn box_length_from_density(n: usize, density: u64) -> (l: i64)
    requires
        1 <= n <= N_MAX,
        1 <= density,
    ensures
        2 <= l <= LEN_MAX / 16,
        l == spec_box_length(n as int, density as int),
{
    proof {
        assert((n as int) * (SCALE as int) * (SCALE as int)
            <= 1_000_000_000_000_000_000_000_000int && 0 <= (n as int) * (SCALE as int))
            by (nonlinear_arith)
            requires
                1 <= n <= 1_000_000,
                SCALE == 1_000_000u64,
        ;
    }
    let raw: u128 = (n as u128) * (SCALE as u128) * (SCALE as u128) / (density as u128);
    let v_fp: u128 = if raw > 1_000_000_000_000_000_000 {
        1_000_000_000_000_000_000
    } else {
        raw
    };
    proof {
        assert(v_fp * (SCALE as u128) * (SCALE as u128)
            < 0x4000_0000_0000_0000_0000_0000_0000_0000u128 && v_fp * (SCALE as u128)
            <= 1_000_000_000_000_000_000_000_000u128) by (nonlinear_arith)
            requires
                v_fp <= 1_000_000_000_000_000_000u128,
                SCALE == 1_000_000u64,
        ;
    }
    let r: u64 = icbrt(v_fp * (SCALE as u128) * (SCALE as u128));
    if r < 2 {
        2
    } else if r > (LEN_MAX / 16) as u64 {
        LEN_MAX / 16
    } else {
        r as i64
    }
}

/// Place `n` particles uniformly at random inside the box.
pub fn init_positions(rng: &mut rand::rngs::ThreadRng, n: usize, lx: i64, ly: i64, lz: i64) -> (pos:
    (Vec<i64>, Vec<i64>, Vec<i64>))
    requires
        1 <= n <= N_MAX,
        0 < lx <= LEN_MAX,
        0 < ly <= LEN_MAX,
        0 < lz <= LEN_MAX,
    ensures
        pos.0@.len() == n && pos.1@.len() == n && pos.2@.len() == n,
        forall|i: int|
            0 <= i < n ==> 0 <= #[trigger] pos.0@[i] < lx && 0 <= pos.1@[i] < ly && 0 <= pos.2@[i]
                < lz,
{
    let mut rx: Vec<i64> = Vec::new();
    let mut ry: Vec<i64> = Vec::new();
    let mut rz: Vec<i64> = Vec::new();
    let mut i: usize = 0;
    while i < n
        invariant
            i <= n,
            0 < lx <= LEN_MAX,
            0 < ly <= LEN_MAX,
            0 < lz <= LEN_MAX,
            rx@.len() == i && ry@.len() == i && rz@.len() == i,
            forall|j: int|
                0 <= j < i ==> 0 <= #[trigger] rx@[j] < lx && 0 <= ry@[j] < ly && 0 <= rz@[j] < lz,
        decreases n - i,
    {
        let ghost prx = rx@;
        let ghost pry = ry@;
        let ghost prz = rz@;
        let x: u64 = draw_below(rng, lx as u64);
        let y: u64 = draw_below(rng, ly as u64);
        let z: u64 = draw_below(rng, lz as u64);
        rx.push(x as i64);
        ry.push(y as i64);
        rz.push(z as i64);
        proof {
            assert forall|j: int| 0 <= j < i + 1 implies 0 <= #[trigger] rx@[j] < lx && 0
                <= ry@[j] < ly && 0 <= rz@[j] < lz by {
                if j < i {
                    assert(rx@[j] == prx[j] && ry@[j] == pry[j] && rz@[j] == prz[j]);
                    assert(0 <= prx[j] < lx);
                }
            }
        }
        i = i + 1;
    }
    (rx, ry, rz)
}

/// Stretch the box along `z` by the factor `1 + vacuum` (in ticks),
/// dilute the density accordingly, and move the particles to the vertical
/// centre, creating two free interfaces. The per-coordinate clamp below
/// the new edge is defensive; the shift of half the added space never
/// reaches it.
pub fn apply_vacuum_slab(rz: &mut Vec<i64>, box_z: i64, density: u64, vacuum: u64) -> (adjusted: (
    i64,
    u64,
))
    requires
        0 < box_z <= LEN_MAX / 16,
        vacuum <= 10 * SCALE,
        density <= 10 * SCALE,
        forall|i: int| 0 <= i < old(rz)@.len() ==> 0 <= #[trigger] old(rz)@[i] < box_z,
    ensures
        final(rz)@.len() == old(rz)@.len(),
        box_z <= adjusted.0 <= LEN_MAX,
        adjusted.1 <= density,
        adjusted.1 == ({
            let dens_raw = spec_tdiv((density as int) * (SCALE as int), SCALE + vacuum);
            if dens_raw >= density {
                density as int
            } else {
                dens_raw
            }
        }),
        vacuum == 0 ==> adjusted.0 == box_z && adjusted.1 == density && final(rz)@ == old(rz)@,
        forall|i: int| 0 <= i < final(rz)@.len() ==> 0 <= #[trigger] final(rz)@[i] < adjusted.0,
        ({
            let grow = spec_tdiv((box_z as int) * (vacuum as int), SCALE as int);
            let move_z = spec_tdiv((box_z as int) * (vacuum as int), 2 * (SCALE as int));
            &&& adjusted.0 == box_z + grow
            &&& forall|i: int|
                0 <= i < final(rz)@.len() ==> final(rz)@[i] == (if old(rz)@[i] + move_z
                    >= box_z + grow {
                    box_z + grow - 1
                } else {
                    old(rz)@[i] + move_z
                })
        }),
{
    proof {
        assert(0 <= (box_z as int) * (vacuum as int) <= 0x4000_0000_0000int * 10_000_000int)
            by (nonlinear_arith)
            requires
                0 < box_z <= 0x4000_0000_0000i64,
                0 <= vacuum <= 10_000_000,
        ;
    }
    let raw: i128 = (box_z as i128) * (vacuum as i128);
    let grow128: i128 = tdiv128(raw, SCALE as i128);
    proof {
        lemma_grow_bound(box_z as int, vacuum as int);
    }
    let grow: i64 = grow128 as i64;
    let move128: i128 = tdiv128(raw, 2 * (SCALE as i128));
    proof {
        lemma_move_bound(box_z as int, vacuum as int);
    }
    let move_z: i64 = move128 as i64;
    let new_box: i64 = box_z + grow;
    let n: usize = rz.len();
    let ghost orig = rz@;
    let mut i: usize = 0;
    while i < n
        invariant
            i <= n,
            rz@.len() == n && orig.len() == n,
            0 < box_z,
            0 <= move_z,
            box_z + move_z <= new_box,
            forall|j: int| 0 <= j < n ==> 0 <= #[trigger] orig[j] < box_z,
            forall|j: int| i <= j < n ==> #[trigger] rz@[j] == orig[j],
            forall|j: int|
                0 <= j < i ==> #[trigger] rz@[j] == (if orig[j] + move_z >= new_box {
                    new_box - 1
                } else {
                    orig[j] + move_z
                }),
            forall|j: int| 0 <= j < i ==> 0 <= #[trigger] rz@[j] < new_box,
        decreases n - i,
    {
        let c: i64 = rz[i];
        let shifted: i64 = c + move_z;
        if shifted >= new_box {
            rz[i] = new_box - 1;
        } else {
            rz[i] = shifted;
        }
        i = i + 1;
    }
    proof {
        assert((density as int) * (SCALE as int) <= 10_000_000_000_000int) by (nonlinear_arith)
            requires
                0 <= density <= 10_000_000,
                SCALE == 1_000_000u64,
        ;
        if vacuum == 0 {
            assert(rz@ =~= orig);
        }
    }
    let dens_raw: i128 = tdiv128(
        (density as i128) * (SCALE as i128),
        (SCALE as i128) + (vacuum as i128),
    );
    let new_density: u64 = if dens_raw >= density as i128 {
        density
    } else {
        dens_raw as u64
    };
    (new_box, new_density)
}

/// The stretch added along `z` stays within one sixteenth of `LEN_MAX`
/// times ten, so the grown edge is still a valid length.
proof fn lemma_grow_bound(box_z: int, vacuum: int)
    requires
        0 < box_z <= LEN_MAX / 16,
        0 <= vacuum <= 10 * SCALE,
    ensures
        0 <= spec_tdiv(box_z * vacuum, SCALE as int) <= 10 * (LEN_MAX as int) / 16,
        box_z + spec_tdiv(box_z * vacuum, SCALE as int) <= LEN_MAX,
{
    let m = 10 * (LEN_MAX as int / 16) * (SCALE as int);
    assert(0 <= box_z * vacuum <= m) by (nonlinear_arith)
        requires
            0 < box_z <= LEN_MAX as int / 16,
            0 <= vacuum <= 10 * SCALE,
            SCALE == 1_000_000u64,
            m == 10 * (LEN_MAX as int / 16) * (SCALE as int),
    ;
    crate::potential::lemma_tdiv_bound(box_z * vacuum, SCALE as int, m);
    assert(m / (SCALE as int) == 10 * (LEN_MAX as int / 16)) by (nonlinear_arith)
        requires
            m == 10 * (LEN_MAX as int / 16) * (SCALE as int),
            SCALE == 1_000_000u64,
            LEN_MAX == 0x4000_0000_0000i64,
    ;
}

/// Same bound for the half-stretch centring shift.
proof fn lemma_move_bound(box_z: int, vacuum: int)
    requires
        0 < box_z <= LEN_MAX / 16,
        0 <= vacuum <= 10 * SCALE,
    ensures
        0 <= spec_tdiv(box_z * vacuum, 2 * (SCALE as int)) <= spec_tdiv(
            box_z * vacuum,
            SCALE as int,
        ),
{
    let a = box_z * vacuum;
    assert(0 <= box_z * vacuum) by (nonlinear_arith)
        requires
            0 < box_z,
            0 <= vacuum,
    ;
    vstd::arithmetic::div_mod::lemma_div_is_ordered_by_denominator(
        a,
        SCALE as int,
        2 * (SCALE as int),
    );
    vstd::arithmetic::div_mod::lemma_div_pos_is_pos(a, 2 * (SCALE as int));
}

/// Assemble a ready simulation: box edge from the density, uniform random
/// placement, the optional vacuum slab, potential parameters with their
/// shift and tail corrections, and the exact initial totals. Everything
/// but the randomly drawn coordinates is pinned exactly; of the
/// coordinates, the well-formedness invariant holds whatever was drawn.
pub fn setup_simulation(
    rng: &mut rand::rngs::ThreadRng,
    n: usize,
    density: u64,
    temperature: u64,
    eps: u64,
    sigma: u64,
    cutoff: u64,
    displacement: i64,
    eq_steps: u64,
    vacuum: u64,
    use_tailcorr: bool,
    use_shift: bool,
    use_scale: bool,
) -> (m: MonteCarlo)
    requires
        1 <= n <= N_MAX,
        1 <= density <= 10 * SCALE,
        0 < temperature <= 1000 * SCALE,
        0 < eps <= 10 * SCALE,
        0 < sigma <= 10 * SCALE,
        0 < cutoff <= LEN_MAX as u64,
        0 < displacement,
        vacuum <= 10 * SCALE,
        eq_steps < crate::engine::STEP_LIMIT,
    ensures
        m.wf(),
        m.rx@.len() == n,
        m.global_step == 0,
        m.eq_steps == eq_steps,
        m.phase == Phase::Equilibrating,
        m.scale_enabled == use_scale,
        !use_shift ==> m.params.shift == 0,
        !use_tailcorr ==> m.params.e_corr == 0 && m.params.p_corr == 0,
        m.temperature == temperature,
        m.step_counter == 0 && m.accept_counter == 0,
        m.energy_sum == 0 && m.virial_sum == 0,
        m.scale_interval == SCALE_INTERVAL && m.resync_interval == RESYNC_INTERVAL,
        ({
            let length = spec_box_length(n as int, density as int);
            let grow = spec_tdiv(length * (vacuum as int), SCALE as int);
            let dens_raw = spec_tdiv((density as int) * (SCALE as int), SCALE + vacuum);
            let d2 = if dens_raw >= density {
                density as int
            } else {
                dens_raw
            };
            let half = if length <= length + grow {
                length / 2
            } else {
                (length + grow) / 2
            };
            &&& m.params.box_x == length && m.params.box_y == length
            &&& m.params.box_z == length + grow
            &&& m.params.eps == eps && m.params.sigma == sigma && m.params.cutoff == cutoff
            &&& m.params.cutoff_sq == (cutoff as int) * (cutoff as int)
            &&& (use_shift ==> m.params.shift == spec_pair_r2(
                (SysParams { shift: 0, ..m.params }),
                m.params.cutoff_sq as int,
                false,
            ))
            &&& (use_tailcorr ==> m.params.e_corr == spec_e_corr(
                eps as int,
                sigma as int,
                cutoff as int,
                d2,
            ) && m.params.p_corr == spec_p_corr(eps as int, sigma as int, cutoff as int, d2))
            &&& m.max_displacement == (if half < 1 {
                1int
            } else {
                half
            })
            &&& m.displacement == (if displacement > m.max_displacement {
                m.max_displacement as int
            } else {
                displacement as int
            })
        }),
{
    let length: i64 = box_length_from_density(n, density);
    let (rx, ry, mut rz) = init_positions(rng, n, length, length, length);
    proof {
        assert forall|i: int| 0 <= i < rz@.len() implies 0 <= #[trigger] rz@[i] < length by {
            assert(0 <= rx@[i] < length);
        }
    }
    let (box_z, density2) = apply_vacuum_slab(&mut rz, length, density, vacuum);
    let params: SysParams = make_params(
        length, length, box_z, eps, sigma, cutoff, density2, use_tailcorr, use_shift);
    let (energy, virial) = get_total_energy(&params, &rx, &ry, &rz);
    let half: i64 = if length <= box_z {
        length / 2
    } else {
        box_z / 2
    };
    let max_displacement: i64 = if half < 1 {
        1
    } else {
        half
    };
    let disp: i64 = if displacement > max_displacement {
        max_displacement
    } else {
        displacement
    };
    MonteCarlo {
        params,
        rx,
        ry,
        rz,
        temperature,
        energy,
        virial,
        phase: Phase::Equilibrating,
        step_counter: 0,
        accept_counter: 0,
        energy_sum: 0,
        virial_sum: 0,
        displacement: disp,
        max_displacement,
        global_step: 0,
        eq_steps,
        scale_enabled: use_scale,
        scale_interval: SCALE_INTERVAL,
        resync_interval: RESYNC_INTERVAL,
    }
}

} // verus!
