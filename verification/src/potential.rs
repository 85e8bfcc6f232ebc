//! Pairwise Lennard-Jones energy and virial with cutoff truncation,
//! optional shift and optional long-range tail corrections, plus the exact
//! pair sums over a configuration.
//!
//! The fixed-point evaluation clamps the squared reduced inverse distance
//! `(sigma/r)^2` at `Q_CLAMP`, which only matters for pathological overlaps
//! (separations below a tenth of `sigma`); beyond the cutoff a pair
//! contributes exactly zero. Because the arithmetic is exact everywhere
//! else, the total over unique pairs and the single-particle sums relate by
//! provable identities rather than floating-point tolerances.
use vstd::prelude::*;
use crate::fixed::{SCALE, spec_tdiv, tdiv128};
use crate::geometry::{LEN_MAX, spec_dist_sq, get_particle_distance_squared};
use vstd::arithmetic::div_mod::{lemma_div_is_ordered, lemma_div_pos_is_pos};

verus! {

/// Upper bound for `sigma` in ticks (one hundred physical units).
pub const SIG_MAX: u64 = 100_000_000;

/// Upper bound for `eps` in ticks (one thousand physical units).
pub const EPS_MAX: u64 = 1_000_000_000;

/// Clamp for the scaled `(sigma/r)^2`, i.e. separations below `sigma/10`
/// saturate the repulsion.
pub const Q_CLAMP: u128 = 100_000_000;

/// Every single pair energy or virial lies within this magnitude.
pub const PAIR_ABS_MAX: i128 = 100_000_000_000_000_000_000_000;

/// The configured energy shift lies within this magnitude.
pub const SHIFT_ABS_MAX: i128 = 10_000_000_000_000_000_000_000;

/// The largest particle count the fixed-point sums accommodate.
pub const N_MAX: usize = 1_000_000;

/// The run parameters the pair potential needs, all in ticks.
#[derive(Clone, Copy)]
pub struct SysParams {
    pub box_x: i64,
    pub box_y: i64,
    pub box_z: i64,
    pub eps: u64,
    pub sigma: u64,
    pub cutoff: u64,
    pub cutoff_sq: u128,
    pub shift: i128,
    pub e_corr: i128,
    pub p_corr: i128,
}

pub open spec fn spec_params_wf(p: SysParams) -> bool {
    &&& 0 < p.box_x <= LEN_MAX
    &&& 0 < p.box_y <= LEN_MAX
    &&& 0 < p.box_z <= LEN_MAX
    &&& 0 < p.eps <= EPS_MAX
    &&& 0 < p.sigma <= SIG_MAX
    &&& 0 < p.cutoff
    &&& p.cutoff_sq == (p.cutoff as int) * (p.cutoff as int)
    &&& -SHIFT_ABS_MAX <= p.shift <= SHIFT_ABS_MAX
    &&& -PAIR_ABS_MAX <= p.e_corr <= PAIR_ABS_MAX
    &&& -PAIR_ABS_MAX <= p.p_corr <= PAIR_ABS_MAX
}

/// The pair energy (`virial == false`) or pair virial (`virial == true`)
/// of two particles at squared minimum-image separation `r2`.
pub open spec fn spec_pair_r2(p: SysParams, r2: int, virial: bool) -> int {
    if r2 > p.cutoff_sq {
        0
    } else {
        let q0 = if r2 <= 0 {
            Q_CLAMP as int
        } else {
            (p.sigma as int) * (p.sigma as int) * (SCALE as int) / r2
        };
        let q = if q0 > Q_CLAMP { Q_CLAMP as int } else { q0 };
        let p3 = q * q * q / ((SCALE as int) * (SCALE as int));
        let p6 = p3 * p3 / (SCALE as int);
        if virial {
            spec_tdiv(24 * (p.eps as int) * (2 * p6 - p3), SCALE as int)
        } else {
            spec_tdiv(4 * (p.eps as int) * (p6 - p3), SCALE as int) - p.shift
        }
    }
}

/// Intermediate magnitudes of the pair formula, shared by the executable
/// evaluation and the bound lemma.
proof fn lemma_pair_pieces(p: SysParams, r2: int)
    requires
        spec_params_wf(p),
        r2 <= p.cutoff_sq,
    ensures
        ({
            let q0 = if r2 <= 0 {
                Q_CLAMP as int
            } else {
                (p.sigma as int) * (p.sigma as int) * (SCALE as int) / r2
            };
            let q = if q0 > Q_CLAMP { Q_CLAMP as int } else { q0 };
            let p3 = q * q * q / ((SCALE as int) * (SCALE as int));
            let p6 = p3 * p3 / (SCALE as int);
            0 <= q <= Q_CLAMP && 0 <= p3 <= 1_000_000_000_000 && 0 <= p6 <= 1_000_000_000_000_000_000
        }),
{
    let s = SCALE as int;
    if r2 > 0 {
        assert(0 <= (p.sigma as int) * (p.sigma as int) * s) by (nonlinear_arith)
            requires
                0 < p.sigma,
                s > 0,
        ;
        lemma_div_pos_is_pos((p.sigma as int) * (p.sigma as int) * s, r2);
    }
    let q0 = if r2 <= 0 {
        Q_CLAMP as int
    } else {
        (p.sigma as int) * (p.sigma as int) * (SCALE as int) / r2
    };
    let q = if q0 > Q_CLAMP { Q_CLAMP as int } else { q0 };
    assert(0 <= q <= Q_CLAMP);
    assert(0 <= q * q * q <= 1_000_000_000_000_000_000_000_000) by (nonlinear_arith)
        requires
            0 <= q <= 100_000_000,
    ;
    lemma_div_is_ordered(q * q * q, 1_000_000_000_000_000_000_000_000, s * s);
    lemma_div_pos_is_pos(q * q * q, s * s);
    let p3 = q * q * q / (s * s);
    assert(1_000_000_000_000_000_000_000_000int / (s * s) == 1_000_000_000_000);
    assert(0 <= p3 * p3 <= 1_000_000_000_000_000_000_000_000) by (nonlinear_arith)
        requires
            0 <= p3 <= 1_000_000_000_000,
    ;
    lemma_div_is_ordered(p3 * p3, 1_000_000_000_000_000_000_000_000, s);
    lemma_div_pos_is_pos(p3 * p3, s);
}

/// A single pair contribution never exceeds `PAIR_ABS_MAX` in magnitude.
pub proof fn lemma_pair_bound(p: SysParams, r2: int, virial: bool)
    requires
        spec_params_wf(p),
    ensures
        -PAIR_ABS_MAX <= spec_pair_r2(p, r2, virial) <= PAIR_ABS_MAX,
{
    if r2 <= p.cutoff_sq {
        lemma_pair_pieces(p, r2);
        let s = SCALE as int;
        let q0 = if r2 <= 0 {
            Q_CLAMP as int
        } else {
            (p.sigma as int) * (p.sigma as int) * (SCALE as int) / r2
        };
        let q = if q0 > Q_CLAMP { Q_CLAMP as int } else { q0 };
        let p3 = q * q * q / (s * s);
        let p6 = p3 * p3 / s;
        if virial {
            let num = 24 * (p.eps as int) * (2 * p6 - p3);
            assert(-24_000_000_000_000_000_000_000_000_000int <= num
                <= 48_000_000_000_000_000_000_000_000_000int) by (nonlinear_arith)
                requires
                    num == 24 * (p.eps as int) * (2 * p6 - p3),
                    0 < p.eps <= 1_000_000_000,
                    0 <= p3 <= 1_000_000_000_000,
                    0 <= p6 <= 1_000_000_000_000_000_000,
            ;
            lemma_tdiv_bound(num, s, 48_000_000_000_000_000_000_000_000_000int);
            assert(48_000_000_000_000_000_000_000_000_000int / 1_000_000int
                == 48_000_000_000_000_000_000_000int);
        } else {
            let num = 4 * (p.eps as int) * (p6 - p3);
            assert(-4_000_000_000_000_000_000_000_000_000int <= num
                <= 4_000_000_000_000_000_000_000_000_000int) by (nonlinear_arith)
                requires
                    num == 4 * (p.eps as int) * (p6 - p3),
                    0 < p.eps <= 1_000_000_000,
                    0 <= p3 <= 1_000_000_000_000,
                    0 <= p6 <= 1_000_000_000_000_000_000,
            ;
            lemma_tdiv_bound(num, s, 4_000_000_000_000_000_000_000_000_000int);
            assert(4_000_000_000_000_000_000_000_000_000int / 1_000_000int
                == 4_000_000_000_000_000_000_000int);
        }
    }
}

/// Truncating division shrinks magnitudes: `|num| <= m` gives
/// `|num / d| <= m / d`.
pub proof fn lemma_tdiv_bound(num: int, d: int, m: int)
    requires
        0 < d,
        0 <= m,
        -m <= num <= m,
    ensures
        -(m / d) <= spec_tdiv(num, d) <= m / d,
{
    if num >= 0 {
        lemma_div_is_ordered(num, m, d);
        lemma_div_pos_is_pos(num, d);
    } else {
        lemma_div_is_ordered(-num, m, d);
        lemma_div_pos_is_pos(-num, d);
    }
}

/// Executable pair potential: energy and virial from the squared
/// minimum-image separation.
pub fn pair_energy_and_virial(p: &SysParams, r2: u128) -> (ev: (i128, i128))
    requires
        spec_params_wf(*p),
    ensures
        ev.0 == spec_pair_r2(*p, r2 as int, false),
        ev.1 == spec_pair_r2(*p, r2 as int, true),
        -PAIR_ABS_MAX <= ev.0 <= PAIR_ABS_MAX,
        -PAIR_ABS_MAX <= ev.1 <= PAIR_ABS_MAX,
        (*p).shift == 0 ==> -SHIFT_ABS_MAX <= ev.0 <= SHIFT_ABS_MAX,
{
    proof {
        lemma_pair_bound(*p, r2 as int, false);
        lemma_pair_bound(*p, r2 as int, true);
    }
    if r2 > p.cutoff_sq {
        (0, 0)
    } else {
        proof {
            lemma_pair_pieces(*p, r2 as int);
        }
        proof {
            assert((p.sigma as int) * (p.sigma as int) * (SCALE as int)
                <= 10_000_000_000_000_000_000_000int && 0 <= (p.sigma as int) * (p.sigma as int))
                by (nonlinear_arith)
                requires
                    0 < p.sigma <= 100_000_000,
                    SCALE == 1_000_000u64,
            ;
        }
        let q: u128 = if r2 == 0 {
            Q_CLAMP
        } else {
            let q0: u128 = (p.sigma as u128) * (p.sigma as u128) * (SCALE as u128) / r2;
            if q0 > Q_CLAMP {
                Q_CLAMP
            } else {
                q0
            }
        };
        proof {
            assert(0 <= (q as int) * (q as int) * (q as int)
                <= 1_000_000_000_000_000_000_000_000int && 0 <= (q as int) * (q as int)
                <= 10_000_000_000_000_000int) by (nonlinear_arith)
                requires
                    0 <= q <= 100_000_000,
            ;
        }
        let p3: u128 = q * q * q / ((SCALE as u128) * (SCALE as u128));
        let p6: u128 = p3 * p3 / (SCALE as u128);
        let diff_e: i128 = (p6 as i128) - (p3 as i128);
        let num_e: i128 = 4 * (p.eps as i128) * diff_e;
        let e_raw: i128 = tdiv128(num_e, SCALE as i128);
        let diff_v: i128 = 2 * (p6 as i128) - (p3 as i128);
        let num_v: i128 = 24 * (p.eps as i128) * diff_v;
        let v: i128 = tdiv128(num_v, SCALE as i128);
        proof {
            assert(-4_000_000_000_000_000_000_000_000_000 <= num_e
                <= 4_000_000_000_000_000_000_000_000_000 && num_e == 4 * (p.eps as int) * (
            p6 as int - p3 as int)) by (nonlinear_arith)
                requires
                    num_e == 4 * (p.eps as i128) * diff_e,
                    diff_e == p6 as i128 - p3 as i128,
                    0 < p.eps <= 1_000_000_000,
                    0 <= p3 <= 1_000_000_000_000,
                    0 <= p6 <= 1_000_000_000_000_000_000,
            ;
            assert(-48_000_000_000_000_000_000_000_000_000 <= num_v
                <= 48_000_000_000_000_000_000_000_000_000 && num_v == 24 * (p.eps as int) * (2 * (
            p6 as int) - p3 as int)) by (nonlinear_arith)
                requires
                    num_v == 24 * (p.eps as i128) * diff_v,
                    diff_v == 2 * (p6 as i128) - (p3 as i128),
                    0 < p.eps <= 1_000_000_000,
                    0 <= p3 <= 1_000_000_000_000,
                    0 <= p6 <= 1_000_000_000_000_000_000,
            ;
            lemma_tdiv_bound(num_e as int, SCALE as int, 4_000_000_000_000_000_000_000_000_000int);
            lemma_tdiv_bound(num_v as int, SCALE as int, 48_000_000_000_000_000_000_000_000_000int);
            assert(4_000_000_000_000_000_000_000_000_000int / 1_000_000int
                == 4_000_000_000_000_000_000_000int);
            assert(48_000_000_000_000_000_000_000_000_000int / 1_000_000int
                == 48_000_000_000_000_000_000_000int);
        }
        (e_raw - p.shift, v)
    }
}

/// The pair value of particles `i` and `j` of a configuration given as
/// three parallel coordinate sequences.
pub open spec fn spec_pair(
    p: SysParams,
    rx: Seq<i64>,
    ry: Seq<i64>,
    rz: Seq<i64>,
    i: int,
    j: int,
    virial: bool,
) -> int {
    spec_pair_r2(
        p,
        spec_dist_sq(
            rx[i] as int, ry[i] as int, rz[i] as int,
            rx[j] as int, ry[j] as int, rz[j] as int,
            p.box_x as int, p.box_y as int, p.box_z as int,
        ),
        virial,
    )
}

/// Sum of the pair values of particle `i` against the particles below `m`,
/// excluding itself.
pub open spec fn spec_pe_upto(
    p: SysParams,
    rx: Seq<i64>,
    ry: Seq<i64>,
    rz: Seq<i64>,
    i: int,
    m: int,
    virial: bool,
) -> int
    decreases m,
{
    if m <= 0 {
        0
    } else {
        spec_pe_upto(p, rx, ry, rz, i, m - 1, virial) + if m - 1 == i {
            0
        } else {
            spec_pair(p, rx, ry, rz, i, m - 1, virial)
        }
    }
}

/// The energy (or virial) of one particle against the whole configuration.
pub open spec fn spec_particle(
    p: SysParams,
    rx: Seq<i64>,
    ry: Seq<i64>,
    rz: Seq<i64>,
    i: int,
    virial: bool,
) -> int {
    spec_pe_upto(p, rx, ry, rz, i, rx.len() as int, virial)
}

/// Sum over all unique pairs `(j, i)` with `j < i < m`.
pub open spec fn spec_total_upto(
    p: SysParams,
    rx: Seq<i64>,
    ry: Seq<i64>,
    rz: Seq<i64>,
    m: int,
    virial: bool,
) -> int
    decreases m,
{
    if m <= 0 {
        0
    } else {
        spec_total_upto(p, rx, ry, rz, m - 1, virial) + spec_pe_upto(
            p, rx, ry, rz, m - 1, m - 1, virial,
        )
    }
}

/// The total energy (or virial) of the configuration: the sum of the pair
/// values over all unique pairs.
pub open spec fn spec_total(
    p: SysParams,
    rx: Seq<i64>,
    ry: Seq<i64>,
    rz: Seq<i64>,
    virial: bool,
) -> int {
    spec_total_upto(p, rx, ry, rz, rx.len() as int, virial)
}

/// Coordinates that the sums read are all inside the box.
pub open spec fn spec_coords_wf(p: SysParams, rx: Seq<i64>, ry: Seq<i64>, rz: Seq<i64>) -> bool {
    &&& rx.len() == ry.len() == rz.len()
    &&& rx.len() <= N_MAX
    &&& forall|i: int|
        0 <= i < rx.len() ==> 0 <= #[trigger] rx[i] < p.box_x && 0 <= ry[i] < p.box_y && 0 <= rz[i]
            < p.box_z
}

/// Partial single-particle sums stay within `m * PAIR_ABS_MAX`.
pub proof fn lemma_pe_upto_bound(
    p: SysParams,
    rx: Seq<i64>,
    ry: Seq<i64>,
    rz: Seq<i64>,
    i: int,
    m: int,
    virial: bool,
)
    requires
        spec_params_wf(p),
        m >= 0,
    ensures
        -(m * PAIR_ABS_MAX) <= spec_pe_upto(p, rx, ry, rz, i, m, virial) <= m * PAIR_ABS_MAX,
    decreases m,
{
    if m > 0 {
        lemma_pe_upto_bound(p, rx, ry, rz, i, m - 1, virial);
        lemma_pair_bound(
            p,
            spec_dist_sq(
                rx[i] as int, ry[i] as int, rz[i] as int,
                rx[m - 1] as int, ry[m - 1] as int, rz[m - 1] as int,
                p.box_x as int, p.box_y as int, p.box_z as int,
            ),
            virial,
        );
        assert((m - 1) * PAIR_ABS_MAX + PAIR_ABS_MAX == m * PAIR_ABS_MAX) by (nonlinear_arith);
    } else {
        assert(m * PAIR_ABS_MAX == 0) by (nonlinear_arith)
            requires
                m == 0,
        ;
    }
}

/// Partial totals stay within `m * m * PAIR_ABS_MAX`.
pub proof fn lemma_total_upto_bound(
    p: SysParams,
    rx: Seq<i64>,
    ry: Seq<i64>,
    rz: Seq<i64>,
    m: int,
    virial: bool,
)
    requires
        spec_params_wf(p),
        m >= 0,
    ensures
        -(m * m * PAIR_ABS_MAX) <= spec_total_upto(p, rx, ry, rz, m, virial) <= m * m
            * PAIR_ABS_MAX,
    decreases m,
{
    if m > 0 {
        lemma_total_upto_bound(p, rx, ry, rz, m - 1, virial);
        lemma_pe_upto_bound(p, rx, ry, rz, m - 1, m - 1, virial);
        assert((m - 1) * (m - 1) * PAIR_ABS_MAX + (m - 1) * PAIR_ABS_MAX <= m * m * PAIR_ABS_MAX
            && -(m * m * PAIR_ABS_MAX) <= -((m - 1) * (m - 1) * PAIR_ABS_MAX) - (m - 1)
            * PAIR_ABS_MAX) by (nonlinear_arith)
            requires
                m >= 1,
                PAIR_ABS_MAX > 0,
        ;
    } else {
        assert(m * m * PAIR_ABS_MAX == 0) by (nonlinear_arith)
            requires
                m == 0,
        ;
    }
}

/// A pair value is symmetric in its two particles.
pub proof fn lemma_pair_symm(
    p: SysParams,
    rx: Seq<i64>,
    ry: Seq<i64>,
    rz: Seq<i64>,
    i: int,
    j: int,
    virial: bool,
)
    ensures
        spec_pair(p, rx, ry, rz, i, j, virial) == spec_pair(p, rx, ry, rz, j, i, virial),
{
}

/// The energy (or virial) of particle `i` evaluated over the whole
/// configuration, excluding self-interaction.
pub fn get_particle_energy(
    p: &SysParams,
    rx: &Vec<i64>,
    ry: &Vec<i64>,
    rz: &Vec<i64>,
    i: usize,
) -> (ev: (i128, i128))
    requires
        spec_params_wf(*p),
        spec_coords_wf(*p, rx@, ry@, rz@),
        i < rx@.len(),
    ensures
        ev.0 == spec_particle(*p, rx@, ry@, rz@, i as int, false),
        ev.1 == spec_particle(*p, rx@, ry@, rz@, i as int, true),
{
    let n: usize = rx.len();
    let mut e: i128 = 0;
    let mut v: i128 = 0;
    let mut j: usize = 0;
    while j < n
        invariant
            spec_params_wf(*p),
            spec_coords_wf(*p, rx@, ry@, rz@),
            i < n,
            j <= n,
            n == rx@.len(),
            e == spec_pe_upto(*p, rx@, ry@, rz@, i as int, j as int, false),
            v == spec_pe_upto(*p, rx@, ry@, rz@, i as int, j as int, true),
            -((j as int) * PAIR_ABS_MAX) <= e <= (j as int) * PAIR_ABS_MAX,
            -((j as int) * PAIR_ABS_MAX) <= v <= (j as int) * PAIR_ABS_MAX,
        decreases n - j,
    {
        if j != i {
            let r2: u128 = get_particle_distance_squared(
                rx[i], ry[i], rz[i],
                rx[j], ry[j], rz[j],
                p.box_x, p.box_y, p.box_z,
            );
            let (pe, pv) = pair_energy_and_virial(p, r2);
            proof {
                assert((j as int) * PAIR_ABS_MAX + PAIR_ABS_MAX == ((j + 1) as int) * PAIR_ABS_MAX)
                    by (nonlinear_arith);
                assert((j as int) * PAIR_ABS_MAX <= (N_MAX as int) * PAIR_ABS_MAX)
                    by (nonlinear_arith)
                    requires
                        0 <= j <= N_MAX,
                        PAIR_ABS_MAX > 0,
                ;
            }
            e = e + pe;
            v = v + pv;
        } else {
            proof {
                assert((j as int) * PAIR_ABS_MAX <= ((j + 1) as int) * PAIR_ABS_MAX
                    && -(((j + 1) as int) * PAIR_ABS_MAX) <= -((j as int) * PAIR_ABS_MAX))
                    by (nonlinear_arith)
                    requires
                        j >= 0,
                        PAIR_ABS_MAX > 0,
                ;
            }
        }
        j = j + 1;
    }
    (e, v)
}

/// The total energy and virial of the configuration from scratch: the sum
/// over all unique pairs, plus the tail correction once per particle on
/// the energy.
pub fn get_total_energy(
    p: &SysParams,
    rx: &Vec<i64>,
    ry: &Vec<i64>,
    rz: &Vec<i64>,
) -> (ev: (i128, i128))
    requires
        spec_params_wf(*p),
        spec_coords_wf(*p, rx@, ry@, rz@),
    ensures
        ev.0 == spec_total(*p, rx@, ry@, rz@, false) + (rx@.len() as int) * p.e_corr,
        ev.1 == spec_total(*p, rx@, ry@, rz@, true),
{
    let n: usize = rx.len();
    let mut e: i128 = 0;
    let mut v: i128 = 0;
    let mut i: usize = 0;
    while i < n
        invariant
            spec_params_wf(*p),
            spec_coords_wf(*p, rx@, ry@, rz@),
            i <= n,
            n == rx@.len(),
            e == spec_total_upto(*p, rx@, ry@, rz@, i as int, false),
            v == spec_total_upto(*p, rx@, ry@, rz@, i as int, true),
            -((i as int) * (i as int) * PAIR_ABS_MAX) <= e <= (i as int) * (i as int)
                * PAIR_ABS_MAX,
            -((i as int) * (i as int) * PAIR_ABS_MAX) <= v <= (i as int) * (i as int)
                * PAIR_ABS_MAX,
        decreases n - i,
    {
        let mut j: usize = 0;
        let mut pe: i128 = 0;
        let mut pv: i128 = 0;
        while j < i
            invariant
                spec_params_wf(*p),
                spec_coords_wf(*p, rx@, ry@, rz@),
                j <= i < n,
                n == rx@.len(),
                pe == spec_pe_upto(*p, rx@, ry@, rz@, i as int, j as int, false),
                pv == spec_pe_upto(*p, rx@, ry@, rz@, i as int, j as int, true),
                -((j as int) * PAIR_ABS_MAX) <= pe <= (j as int) * PAIR_ABS_MAX,
                -((j as int) * PAIR_ABS_MAX) <= pv <= (j as int) * PAIR_ABS_MAX,
            decreases i - j,
        {
            let r2: u128 = get_particle_distance_squared(
                rx[i], ry[i], rz[i],
                rx[j], ry[j], rz[j],
                p.box_x, p.box_y, p.box_z,
            );
            let (qe, qv) = pair_energy_and_virial(p, r2);
            proof {
                assert((j as int) * PAIR_ABS_MAX + PAIR_ABS_MAX == ((j + 1) as int) * PAIR_ABS_MAX)
                    by (nonlinear_arith);
                assert((j as int) * PAIR_ABS_MAX <= (N_MAX as int) * PAIR_ABS_MAX)
                    by (nonlinear_arith)
                    requires
                        0 <= j <= N_MAX,
                        PAIR_ABS_MAX > 0,
                ;
            }
            pe = pe + qe;
            pv = pv + qv;
            j = j + 1;
        }
        proof {
            lemma_total_step_bound(i as int, n as int);
        }
        e = e + pe;
        v = v + pv;
        i = i + 1;
    }
    proof {
        lemma_total_upto_bound(*p, rx@, ry@, rz@, n as int, false);
        lemma_total_upto_bound(*p, rx@, ry@, rz@, n as int, true);
        assert((n as int) * (n as int) * PAIR_ABS_MAX
            <= 1_000_000_000_000 * PAIR_ABS_MAX) by (nonlinear_arith)
            requires
                0 <= n <= N_MAX,
                PAIR_ABS_MAX > 0,
        ;
        assert((n as int) * p.e_corr <= 1_000_000 * PAIR_ABS_MAX
            && -(1_000_000 * PAIR_ABS_MAX) <= (n as int) * p.e_corr) by (nonlinear_arith)
            requires
                0 <= n <= N_MAX,
                -PAIR_ABS_MAX <= p.e_corr <= PAIR_ABS_MAX,
        ;
    }
    let corr: i128 = (n as i128) * p.e_corr;
    (e + corr, v)
}

/// Two coordinate sequences that agree everywhere except possibly at `k`.
pub open spec fn spec_same_but(a: Seq<i64>, b: Seq<i64>, k: int) -> bool {
    a.len() == b.len() && forall|j: int| 0 <= j < a.len() && j != k ==> a[j] == b[j]
}

/// A particle sum that never reads index `k` is the same in both
/// configurations.
proof fn lemma_pe_upto_agree(
    p: SysParams,
    rx1: Seq<i64>, ry1: Seq<i64>, rz1: Seq<i64>,
    rx2: Seq<i64>, ry2: Seq<i64>, rz2: Seq<i64>,
    k: int,
    i: int,
    m: int,
    virial: bool,
)
    requires
        spec_same_but(rx1, rx2, k),
        spec_same_but(ry1, ry2, k),
        spec_same_but(rz1, rz2, k),
        ry1.len() == rx1.len(),
        rz1.len() == rx1.len(),
        0 <= i < rx1.len(),
        i != k,
        m <= k,
        m <= rx1.len(),
    ensures
        spec_pe_upto(p, rx1, ry1, rz1, i, m, virial) == spec_pe_upto(p, rx2, ry2, rz2, i, m, virial),
    decreases m,
{
    if m > 0 {
        lemma_pe_upto_agree(p, rx1, ry1, rz1, rx2, ry2, rz2, k, i, m - 1, virial);
        assert(rx1[i] == rx2[i] && ry1[i] == ry2[i] && rz1[i] == rz2[i]);
        assert(rx1[m - 1] == rx2[m - 1] && ry1[m - 1] == ry2[m - 1] && rz1[m - 1] == rz2[m - 1]);
        assert(spec_pair(p, rx1, ry1, rz1, i, m - 1, virial) == spec_pair(
            p, rx2, ry2, rz2, i, m - 1, virial));
    }
}

/// For a particle other than the moved one, the sum over the first `m`
/// partners changes exactly by the pair with the moved particle.
proof fn lemma_pe_upto_delta(
    p: SysParams,
    rx1: Seq<i64>, ry1: Seq<i64>, rz1: Seq<i64>,
    rx2: Seq<i64>, ry2: Seq<i64>, rz2: Seq<i64>,
    k: int,
    i: int,
    m: int,
    virial: bool,
)
    requires
        spec_same_but(rx1, rx2, k),
        spec_same_but(ry1, ry2, k),
        spec_same_but(rz1, rz2, k),
        ry1.len() == rx1.len(),
        rz1.len() == rx1.len(),
        0 <= i < rx1.len(),
        i != k,
        0 <= k < m <= rx1.len(),
    ensures
        spec_pe_upto(p, rx2, ry2, rz2, i, m, virial) - spec_pe_upto(p, rx1, ry1, rz1, i, m, virial)
            == spec_pair(p, rx2, ry2, rz2, i, k, virial) - spec_pair(p, rx1, ry1, rz1, i, k, virial),
    decreases m,
{
    if m - 1 == k {
        lemma_pe_upto_agree(p, rx1, ry1, rz1, rx2, ry2, rz2, k, i, m - 1, virial);
    } else {
        lemma_pe_upto_delta(p, rx1, ry1, rz1, rx2, ry2, rz2, k, i, m - 1, virial);
        assert(rx1[i] == rx2[i] && ry1[i] == ry2[i] && rz1[i] == rz2[i]);
        assert(rx1[m - 1] == rx2[m - 1] && ry1[m - 1] == ry2[m - 1] && rz1[m - 1] == rz2[m - 1]);
        assert(spec_pair(p, rx1, ry1, rz1, i, m - 1, virial) == spec_pair(
            p, rx2, ry2, rz2, i, m - 1, virial));
    }
}

/// A partial total that never reads index `k` is the same in both
/// configurations.
proof fn lemma_total_upto_agree(
    p: SysParams,
    rx1: Seq<i64>, ry1: Seq<i64>, rz1: Seq<i64>,
    rx2: Seq<i64>, ry2: Seq<i64>, rz2: Seq<i64>,
    k: int,
    m: int,
    virial: bool,
)
    requires
        spec_same_but(rx1, rx2, k),
        spec_same_but(ry1, ry2, k),
        spec_same_but(rz1, rz2, k),
        ry1.len() == rx1.len(),
        rz1.len() == rx1.len(),
        0 <= m <= k,
        m <= rx1.len(),
    ensures
        spec_total_upto(p, rx1, ry1, rz1, m, virial) == spec_total_upto(p, rx2, ry2, rz2, m, virial),
    decreases m,
{
    if m > 0 {
        lemma_total_upto_agree(p, rx1, ry1, rz1, rx2, ry2, rz2, k, m - 1, virial);
        lemma_pe_upto_agree(p, rx1, ry1, rz1, rx2, ry2, rz2, k, m - 1, m - 1, virial);
    }
}

/// Partial version of the update identity, by induction from `k + 1`.
proof fn lemma_total_upto_delta(
    p: SysParams,
    rx1: Seq<i64>, ry1: Seq<i64>, rz1: Seq<i64>,
    rx2: Seq<i64>, ry2: Seq<i64>, rz2: Seq<i64>,
    k: int,
    m: int,
    virial: bool,
)
    requires
        spec_same_but(rx1, rx2, k),
        spec_same_but(ry1, ry2, k),
        spec_same_but(rz1, rz2, k),
        ry1.len() == rx1.len(),
        rz1.len() == rx1.len(),
        0 <= k < m <= rx1.len(),
    ensures
        spec_total_upto(p, rx2, ry2, rz2, m, virial) - spec_total_upto(p, rx1, ry1, rz1, m, virial)
            == spec_pe_upto(p, rx2, ry2, rz2, k, m, virial) - spec_pe_upto(
            p, rx1, ry1, rz1, k, m, virial),
    decreases m,
{
    if m - 1 == k {
        lemma_total_upto_agree(p, rx1, ry1, rz1, rx2, ry2, rz2, k, k, virial);
    } else {
        lemma_total_upto_delta(p, rx1, ry1, rz1, rx2, ry2, rz2, k, m - 1, virial);
        lemma_pe_upto_delta(p, rx1, ry1, rz1, rx2, ry2, rz2, k, m - 1, m - 1, virial);
        lemma_pair_symm(p, rx1, ry1, rz1, k, m - 1, virial);
        lemma_pair_symm(p, rx2, ry2, rz2, k, m - 1, virial);
    }
}

/// Moving one particle changes the total over unique pairs by exactly the
/// change of that particle's own sum: the identity behind the engine's
/// incremental energy bookkeeping.
pub proof fn lemma_total_move_delta(
    p: SysParams,
    rx1: Seq<i64>, ry1: Seq<i64>, rz1: Seq<i64>,
    rx2: Seq<i64>, ry2: Seq<i64>, rz2: Seq<i64>,
    k: int,
    virial: bool,
)
    requires
        spec_same_but(rx1, rx2, k),
        spec_same_but(ry1, ry2, k),
        spec_same_but(rz1, rz2, k),
        ry1.len() == rx1.len(),
        rz1.len() == rx1.len(),
        0 <= k < rx1.len(),
    ensures
        spec_total(p, rx2, ry2, rz2, virial) - spec_total(p, rx1, ry1, rz1, virial)
            == spec_particle(p, rx2, ry2, rz2, k, virial) - spec_particle(
            p, rx1, ry1, rz1, k, virial),
{
    lemma_total_upto_delta(p, rx1, ry1, rz1, rx2, ry2, rz2, k, rx1.len() as int, virial);
}

/// Two particles holding the same position have the same particle sum,
/// up to which of the two the sum excludes.
proof fn lemma_pe_equal_positions(
    p: SysParams,
    rx: Seq<i64>, ry: Seq<i64>, rz: Seq<i64>,
    a: int,
    b: int,
    m: int,
    virial: bool,
)
    requires
        ry.len() == rx.len(),
        rz.len() == rx.len(),
        0 <= a < rx.len(),
        0 <= b < rx.len(),
        a != b,
        m <= rx.len(),
        rx[a] == rx[b] && ry[a] == ry[b] && rz[a] == rz[b],
    ensures
        spec_pe_upto(p, rx, ry, rz, a, m, virial) - spec_pe_upto(p, rx, ry, rz, b, m, virial)
            == (if b < m { spec_pair(p, rx, ry, rz, a, b, virial) } else { 0 }) - (if a < m {
            spec_pair(p, rx, ry, rz, b, a, virial)
        } else {
            0
        }),
    decreases m,
{
    if m > 0 {
        lemma_pe_equal_positions(p, rx, ry, rz, a, b, m - 1, virial);
        if m - 1 != a && m - 1 != b {
            assert(spec_pair(p, rx, ry, rz, a, m - 1, virial) == spec_pair(
                p, rx, ry, rz, b, m - 1, virial));
        }
    }
}

/// The particle sum of `a` in a configuration equals the particle sum of
/// `b` in the configuration with the two positions exchanged, up to the
/// excluded self terms.
proof fn lemma_pe_cross(
    p: SysParams,
    rx1: Seq<i64>, ry1: Seq<i64>, rz1: Seq<i64>,
    rx2: Seq<i64>, ry2: Seq<i64>, rz2: Seq<i64>,
    a: int,
    b: int,
    m: int,
    virial: bool,
)
    requires
        ry1.len() == rx1.len(),
        rz1.len() == rx1.len(),
        rx2.len() == rx1.len(),
        ry2.len() == rx1.len(),
        rz2.len() == rx1.len(),
        0 <= a < rx1.len(),
        0 <= b < rx1.len(),
        a != b,
        m <= rx1.len(),
        rx2[a] == rx1[b] && ry2[a] == ry1[b] && rz2[a] == rz1[b],
        rx2[b] == rx1[a] && ry2[b] == ry1[a] && rz2[b] == rz1[a],
        forall|j: int|
            0 <= j < rx1.len() && j != a && j != b ==> #[trigger] rx2[j] == rx1[j] && ry2[j]
                == ry1[j] && rz2[j] == rz1[j],
    ensures
        spec_pe_upto(p, rx1, ry1, rz1, a, m, virial) - spec_pe_upto(p, rx2, ry2, rz2, b, m, virial)
            == (if b < m { spec_pair(p, rx1, ry1, rz1, a, b, virial) } else { 0 }) - (if a < m {
            spec_pair(p, rx2, ry2, rz2, b, a, virial)
        } else {
            0
        }),
    decreases m,
{
    if m > 0 {
        lemma_pe_cross(p, rx1, ry1, rz1, rx2, ry2, rz2, a, b, m - 1, virial);
        if m - 1 != a && m - 1 != b {
            assert(rx2[m - 1] == rx1[m - 1] && ry2[m - 1] == ry1[m - 1] && rz2[m - 1] == rz1[m
                - 1]);
            assert(spec_pair(p, rx1, ry1, rz1, a, m - 1, virial) == spec_pair(
                p, rx2, ry2, rz2, b, m - 1, virial));
        }
    }
}

/// Exchanging the labels of two particles leaves the total over unique
/// pairs unchanged: the sum depends on the pair separations alone, not on
/// which particle carries which index.
pub proof fn lemma_total_swap(
    p: SysParams,
    rx: Seq<i64>, ry: Seq<i64>, rz: Seq<i64>,
    a: int,
    b: int,
    virial: bool,
)
    requires
        ry.len() == rx.len(),
        rz.len() == rx.len(),
        0 <= a < rx.len(),
        0 <= b < rx.len(),
        a != b,
    ensures
        ({
            let rx2 = rx.update(a, rx[b]).update(b, rx[a]);
            let ry2 = ry.update(a, ry[b]).update(b, ry[a]);
            let rz2 = rz.update(a, rz[b]).update(b, rz[a]);
            spec_total(p, rx2, ry2, rz2, virial) == spec_total(p, rx, ry, rz, virial)
        }),
{
    let n = rx.len() as int;
    let rx1 = rx.update(a, rx[b]);
    let ry1 = ry.update(a, ry[b]);
    let rz1 = rz.update(a, rz[b]);
    let rx2 = rx1.update(b, rx[a]);
    let ry2 = ry1.update(b, ry[a]);
    let rz2 = rz1.update(b, rz[a]);
    lemma_total_move_delta(p, rx, ry, rz, rx1, ry1, rz1, a, virial);
    lemma_total_move_delta(p, rx1, ry1, rz1, rx2, ry2, rz2, b, virial);
    lemma_pe_equal_positions(p, rx1, ry1, rz1, a, b, n, virial);
    lemma_pair_symm(p, rx1, ry1, rz1, a, b, virial);
    assert forall|j: int| 0 <= j < rx.len() && j != a && j != b implies #[trigger] rx2[j] == rx[j]
        && ry2[j] == ry[j] && rz2[j] == rz[j] by {}
    lemma_pe_cross(p, rx, ry, rz, rx2, ry2, rz2, a, b, n, virial);
    assert(spec_pair(p, rx, ry, rz, a, b, virial) == spec_pair(p, rx2, ry2, rz2, b, a, virial));
}

/// Arithmetic step for the outer total-energy loop bounds.
proof fn lemma_total_step_bound(i: int, n: int)
    requires
        0 <= i < n <= N_MAX,
    ensures
        i * i * PAIR_ABS_MAX + i * PAIR_ABS_MAX <= (i + 1) * (i + 1) * PAIR_ABS_MAX,
        -((i + 1) * (i + 1) * PAIR_ABS_MAX) <= -(i * i * PAIR_ABS_MAX) - i * PAIR_ABS_MAX,
        (i + 1) * (i + 1) * PAIR_ABS_MAX <= 1_000_000_000_000 * PAIR_ABS_MAX,
{
    assert(i * i * PAIR_ABS_MAX + i * PAIR_ABS_MAX <= (i + 1) * (i + 1) * PAIR_ABS_MAX
        && -((i + 1) * (i + 1) * PAIR_ABS_MAX) <= -(i * i * PAIR_ABS_MAX) - i * PAIR_ABS_MAX
        && (i + 1) * (i + 1) * PAIR_ABS_MAX <= 1_000_000_000_000 * PAIR_ABS_MAX)
        by (nonlinear_arith)
        requires
            0 <= i < n <= 1_000_000,
            PAIR_ABS_MAX > 0,
    ;
}

} // verus!

// Everything below builds the run parameters: the energy shift (the raw
// pair energy at the cutoff) and the closed-form long-range tail
// corrections for energy and pressure under a uniform-density assumption.

verus! {

/// Pi in ticks.
pub const PI_FP: u64 = 3_141_593;

/// `(sigma/cutoff)` in ticks, saturated at one physical unit; the
/// saturation is inactive whenever `sigma <= cutoff`.
pub open spec fn spec_sig_over_rc(sigma: int, cutoff: int) -> int {
    let st = sigma * SCALE / cutoff;
    if st > SCALE { SCALE as int } else { st }
}

/// Third power of a tick value in `[0, SCALE]`, in ticks.
pub open spec fn spec_cube_frac(t: int) -> int {
    let c = t * t * t / ((SCALE as int) * (SCALE as int));
    if c > SCALE { SCALE as int } else { c }
}

/// The energy tail correction `(8/3) pi rho eps sigma^3 [(1/3)(sigma/rc)^9
/// - (sigma/rc)^3]`, staged in ticks with truncating divisions.
pub open spec fn spec_e_corr(eps: int, sigma: int, cutoff: int, density: int) -> int {
    let s = SCALE as int;
    let s3 = spec_cube_frac(spec_sig_over_rc(sigma, cutoff));
    let s9 = spec_cube_frac(s3);
    let sig3 = spec_cube_frac_wide(sigma);
    let t1 = 8 * (PI_FP as int) * density;
    let t2 = spec_tdiv(t1 * eps, 3 * s);
    let t3 = spec_tdiv(t2 * sig3, s);
    spec_tdiv(t3 * (spec_tdiv(s9, 3) - s3), s * s)
}

/// Third power of a tick value in `[0, 10 * SCALE]`, in ticks.
pub open spec fn spec_cube_frac_wide(t: int) -> int {
    let c = t * t * t / ((SCALE as int) * (SCALE as int));
    if c > 1000 * SCALE { 1000 * (SCALE as int) } else { c }
}

/// The pressure tail correction `(16/3) pi rho^2 eps sigma^3
/// [(2/3)(sigma/rc)^9 - (sigma/rc)^3]`, staged in ticks.
pub open spec fn spec_p_corr(eps: int, sigma: int, cutoff: int, density: int) -> int {
    let s = SCALE as int;
    let s3 = spec_cube_frac(spec_sig_over_rc(sigma, cutoff));
    let s9 = spec_cube_frac(s3);
    let sig3 = spec_cube_frac_wide(sigma);
    let t1 = 16 * (PI_FP as int) * density;
    let t2 = spec_tdiv(t1 * density, 3 * s);
    let t3 = spec_tdiv(t2 * eps, s);
    let t4 = spec_tdiv(t3 * sig3, s);
    spec_tdiv(t4 * (spec_tdiv(2 * s9, 3) - s3), s * s)
}

fn sig_over_rc(sigma: u64, cutoff: u64) -> (st: u64)
    requires
        0 < sigma,
        0 < cutoff,
    ensures
        st == spec_sig_over_rc(sigma as int, cutoff as int),
        st <= SCALE,
{
    let w: u128 = (sigma as u128) * (SCALE as u128) / (cutoff as u128);
    if w > SCALE as u128 {
        SCALE
    } else {
        w as u64
    }
}

fn cube_frac(t: u64) -> (c: u64)
    requires
        t <= SCALE,
    ensures
        c == spec_cube_frac(t as int),
        c <= SCALE,
{
    proof {
        assert(0 <= (t as int) * (t as int) * (t as int) <= 1_000_000_000_000_000_000int
            && 0 <= (t as int) * (t as int) <= 1_000_000_000_000int) by (nonlinear_arith)
            requires
                0 <= t <= 1_000_000,
        ;
        assert((SCALE as int) * (SCALE as int) == 1_000_000_000_000int) by (nonlinear_arith)
            requires
                SCALE == 1_000_000u64,
        ;
    }
    let c: u128 = (t as u128) * (t as u128) * (t as u128) / ((SCALE as u128) * (SCALE as u128));
    if c > SCALE as u128 {
        SCALE
    } else {
        c as u64
    }
}

fn cube_frac_wide(t: u64) -> (c: u64)
    requires
        t <= 10 * SCALE,
    ensures
        c == spec_cube_frac_wide(t as int),
        c <= 1000 * SCALE,
{
    proof {
        assert(0 <= (t as int) * (t as int) * (t as int) <= 1_000_000_000_000_000_000_000_000int
            && 0 <= (t as int) * (t as int) <= 100_000_000_000_000int) by (nonlinear_arith)
            requires
                0 <= t <= 10_000_000,
        ;
        assert((SCALE as int) * (SCALE as int) == 1_000_000_000_000int) by (nonlinear_arith)
            requires
                SCALE == 1_000_000u64,
        ;
    }
    let c: u128 = (t as u128) * (t as u128) * (t as u128) / ((SCALE as u128) * (SCALE as u128));
    if c > (1000 * SCALE) as u128 {
        1000 * SCALE
    } else {
        c as u64
    }
}

/// Build the run parameters. With shifting disabled the shift is exactly
/// zero; with tail corrections disabled both corrections are exactly zero.
pub fn make_params(
    box_x: i64, box_y: i64, box_z: i64,
    eps: u64, sigma: u64, cutoff: u64,
    density: u64,
    use_tailcorr: bool,
    use_shift: bool,
) -> (p: SysParams)
    requires
        0 < box_x <= LEN_MAX,
        0 < box_y <= LEN_MAX,
        0 < box_z <= LEN_MAX,
        0 < eps <= 10 * SCALE,
        0 < sigma <= 10 * SCALE,
        0 < cutoff <= LEN_MAX as u64,
        density <= 10 * SCALE,
    ensures
        spec_params_wf(p),
        p.box_x == box_x && p.box_y == box_y && p.box_z == box_z,
        p.eps == eps && p.sigma == sigma && p.cutoff == cutoff,
        p.cutoff_sq == (cutoff as int) * (cutoff as int),
        !use_shift ==> p.shift == 0,
        !use_tailcorr ==> p.e_corr == 0 && p.p_corr == 0,
        use_shift ==> p.shift == spec_pair_r2(
            (SysParams { shift: 0, ..p }),
            p.cutoff_sq as int,
            false,
        ),
        use_tailcorr ==> p.e_corr == spec_e_corr(
            eps as int, sigma as int, cutoff as int, density as int,
        ) && p.p_corr == spec_p_corr(eps as int, sigma as int, cutoff as int, density as int),
{
    proof {
        assert(0 <= (cutoff as int) * (cutoff as int) <= (LEN_MAX as int) * (LEN_MAX as int))
            by (nonlinear_arith)
            requires
                0 < cutoff <= LEN_MAX as u64,
        ;
    }
    let cutoff_sq: u128 = (cutoff as u128) * (cutoff as u128);
    let mut p = SysParams {
        box_x, box_y, box_z,
        eps, sigma, cutoff, cutoff_sq,
        shift: 0,
        e_corr: 0,
        p_corr: 0,
    };
    if use_shift {
        let (e0, _v0) = pair_energy_and_virial(&p, cutoff_sq);
        p.shift = e0;
    }
    if use_tailcorr {
        let s: i128 = SCALE as i128;
        let st: u64 = sig_over_rc(sigma, cutoff);
        let s3: u64 = cube_frac(st);
        let s9: u64 = cube_frac(s3);
        let sig3: u64 = cube_frac_wide(sigma);
        proof {
            assert(0 <= 8 * (PI_FP as int) * (density as int) <= 300_000_000_000_000int)
                by (nonlinear_arith)
                requires
                    PI_FP == 3_141_593u64,
                    0 <= density <= 10_000_000,
            ;
        }
        let t1: i128 = 8 * (PI_FP as i128) * (density as i128);
        proof {
            assert(0 <= (t1 as int) * (eps as int) <= 3_000_000_000_000_000_000_000int)
                by (nonlinear_arith)
                requires
                    0 <= t1 <= 300_000_000_000_000i128,
                    0 < eps <= 10_000_000,
            ;
        }
        let t2: i128 = tdiv128(t1 * (eps as i128), 3 * s);
        proof {
            lemma_tdiv_bound((t1 * (eps as i128)) as int, 3_000_000, 3_000_000_000_000_000_000_000int);
            assert(3_000_000_000_000_000_000_000int / 3_000_000int == 1_000_000_000_000_000int);
            assert(-1_000_000_000_000_000_000_000_000int <= (t2 as int) * (sig3 as int)
                <= 1_000_000_000_000_000_000_000_000int) by (nonlinear_arith)
                requires
                    -1_000_000_000_000_000i128 <= t2 <= 1_000_000_000_000_000i128,
                    0 <= sig3 <= 1_000_000_000,
            ;
        }
        let t3: i128 = tdiv128(t2 * (sig3 as i128), s);
        let inner_e: i128 = (s9 as i128) / 3 - (s3 as i128);
        proof {
            lemma_tdiv_bound((t2 * (sig3 as i128)) as int, 1_000_000, 1_000_000_000_000_000_000_000_000int);
            assert(1_000_000_000_000_000_000_000_000int / 1_000_000int == 1_000_000_000_000_000_000int);
            assert(-1_000_000_000_000_000_000_000_000int <= (t3 as int) * (inner_e as int)
                <= 1_000_000_000_000_000_000_000_000int) by (nonlinear_arith)
                requires
                    -1_000_000_000_000_000_000i128 <= t3 <= 1_000_000_000_000_000_000i128,
                    -1_000_000 <= inner_e <= 1_000_000,
            ;
        }
        proof {
            assert((s as int) * (s as int) == 1_000_000_000_000int) by (nonlinear_arith)
                requires
                    s == 1_000_000i128,
            ;
        }
        let e_corr: i128 = tdiv128(t3 * inner_e, s * s);
        proof {
            lemma_tdiv_bound(
                (t3 * inner_e) as int, 1_000_000_000_000, 1_000_000_000_000_000_000_000_000int);
            assert(1_000_000_000_000_000_000_000_000int / 1_000_000_000_000int
                == 1_000_000_000_000int);
            assert(0 <= 16 * (PI_FP as int) * (density as int) <= 600_000_000_000_000int)
                by (nonlinear_arith)
                requires
                    PI_FP == 3_141_593u64,
                    0 <= density <= 10_000_000,
            ;
        }
        let u1: i128 = 16 * (PI_FP as i128) * (density as i128);
        proof {
            assert(0 <= (u1 as int) * (density as int) <= 6_000_000_000_000_000_000_000int)
                by (nonlinear_arith)
                requires
                    0 <= u1 <= 600_000_000_000_000i128,
                    0 <= density <= 10_000_000,
            ;
        }
        let u2: i128 = tdiv128(u1 * (density as i128), 3 * s);
        proof {
            lemma_tdiv_bound((u1 * (density as i128)) as int, 3_000_000, 6_000_000_000_000_000_000_000int);
            assert(6_000_000_000_000_000_000_000int / 3_000_000int == 2_000_000_000_000_000int);
            assert(-20_000_000_000_000_000_000_000int <= (u2 as int) * (eps as int)
                <= 20_000_000_000_000_000_000_000int) by (nonlinear_arith)
                requires
                    -2_000_000_000_000_000i128 <= u2 <= 2_000_000_000_000_000i128,
                    0 < eps <= 10_000_000,
            ;
        }
        let u3: i128 = tdiv128(u2 * (eps as i128), s);
        proof {
            lemma_tdiv_bound((u2 * (eps as i128)) as int, 1_000_000, 20_000_000_000_000_000_000_000int);
            assert(20_000_000_000_000_000_000_000int / 1_000_000int == 20_000_000_000_000_000int);
            assert(-20_000_000_000_000_000_000_000_000int <= (u3 as int) * (sig3 as int)
                <= 20_000_000_000_000_000_000_000_000int) by (nonlinear_arith)
                requires
                    -20_000_000_000_000_000i128 <= u3 <= 20_000_000_000_000_000i128,
                    0 <= sig3 <= 1_000_000_000,
            ;
        }
        let u4: i128 = tdiv128(u3 * (sig3 as i128), s);
        let inner_p: i128 = 2 * (s9 as i128) / 3 - (s3 as i128);
        proof {
            lemma_tdiv_bound(
                (u3 * (sig3 as i128)) as int, 1_000_000, 20_000_000_000_000_000_000_000_000int);
            assert(20_000_000_000_000_000_000_000_000int / 1_000_000int
                == 20_000_000_000_000_000_000int);
            assert(-20_000_000_000_000_000_000_000_000_0int <= (u4 as int) * (inner_p as int)
                <= 20_000_000_000_000_000_000_000_000_0int) by (nonlinear_arith)
                requires
                    -20_000_000_000_000_000_000i128 <= u4 <= 20_000_000_000_000_000_000i128,
                    -1_000_000 <= inner_p <= 1_000_000,
            ;
        }
        let p_corr: i128 = tdiv128(u4 * inner_p, s * s);
        proof {
            lemma_tdiv_bound(
                (u4 * inner_p) as int, 1_000_000_000_000, 20_000_000_000_000_000_000_000_000_0int);
            assert(20_000_000_000_000_000_000_000_000_0int / 1_000_000_000_000int
                == 200_000_000_000_000int);
            assert(spec_tdiv((s9 as int), 3) == (s9 as int) / 3);
            assert(spec_tdiv(2 * (s9 as int), 3) == 2 * (s9 as int) / 3);
        }
        p.e_corr = e_corr;
        p.p_corr = p_corr;
    }
    p
}

} // verus!
