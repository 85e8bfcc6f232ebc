//! The Metropolis trial/accept-reject state machine with incremental
//! energy bookkeeping, the equilibration-to-sampling phase transition, and
//! the adaptive displacement controller.
//!
//! Because the arithmetic is exact, the incrementally tracked total energy
//! and virial always equal a from-scratch recomputation; the periodic
//! resynchronisation that guards against accumulated drift is kept and is
//! provably the identity.
use vstd::prelude::*;
use crate::fixed::{SCALE, SAT_MAX, spec_tdiv, spec_exp_neg, spec_sat_add, tdiv128, exp_neg_fp, sat_add};
use crate::geometry::{LEN_MAX, spec_wrap, spec_trial_offset, wrap_coordinate, trial_offset};
use crate::potential::{
    SysParams, N_MAX, PAIR_ABS_MAX, spec_params_wf, spec_coords_wf, spec_particle, spec_total,
    get_particle_energy, get_total_energy, lemma_pe_upto_bound, lemma_total_upto_bound,
    lemma_total_move_delta,
};
use crate::rng::{draw_index, draw_below};

verus! {

/// Trial steps are counted below this, far beyond any practical run.
pub const STEP_LIMIT: u64 = 0x1000_0000_0000_0000;

#[derive(Clone, Copy, Debug, PartialEq, Eq, Structural)]
pub enum Phase {
    Equilibrating,
    Sampling,
}

/// The displacement update rule: with `steps` trials and `accepts`
/// acceptances since the last checkpoint, grow the displacement when
/// acceptance is too frequent (tries-per-acceptance below the band),
/// shrink it when too rare, and leave it alone inside the band. The change
/// is `displacement * (target / observed) * (1/10)`, i.e.
/// `3 * accepts * displacement / (10 * steps)`. Growth saturates at the
/// hard ceiling; with zero acceptances the observed ratio is unboundedly
/// large and the computed change is zero, so the displacement is kept.
pub open spec fn spec_scale_displacement(
    displacement: int,
    max_displacement: int,
    steps: int,
    accepts: int,
) -> int {
    let delta = spec_tdiv(3 * accepts * displacement, 10 * steps);
    if 10 * steps < 28 * accepts {
        if displacement < max_displacement {
            if displacement + delta > max_displacement {
                max_displacement
            } else {
                displacement + delta
            }
        } else {
            displacement
        }
    } else if 10 * steps > 32 * accepts {
        let capped = if delta >= displacement {
            displacement - 1
        } else {
            delta
        };
        displacement - capped
    } else {
        displacement
    }
}

/// Adapt the trial displacement toward the target acceptance ratio. The
/// result always stays in `(0, max_displacement]`.
pub fn scale_displacement(displacement: i64, max_displacement: i64, steps: u64, accepts: u64) -> (d:
    i64)
    requires
        0 < displacement <= max_displacement <= LEN_MAX,
        0 < steps,
    ensures
        d == spec_scale_displacement(
            displacement as int,
            max_displacement as int,
            steps as int,
            accepts as int,
        ),
        0 < d <= max_displacement,
{
    proof {
        assert(0 <= 3 * (accepts as int) * (displacement as int)
            < 0x40000000000000000000000000000000int) by (nonlinear_arith)
            requires
                0 <= accepts <= 0xffff_ffff_ffff_ffffu64,
                0 < displacement <= 0x4000_0000_0000i64,
        ;
    }
    let num: i128 = 3 * (accepts as i128) * (displacement as i128);
    let delta128: i128 = tdiv128(num, 10 * (steps as i128));
    if 10 * (steps as u128) < 28 * (accepts as u128) {
        if displacement < max_displacement {
            if (displacement as i128) + delta128 > (max_displacement as i128) {
                max_displacement
            } else {
                displacement + (delta128 as i64)
            }
        } else {
            displacement
        }
    } else if 10 * (steps as u128) > 32 * (accepts as u128) {
        let capped: i64 = if delta128 >= displacement as i128 {
            displacement - 1
        } else {
            delta128 as i64
        };
        displacement - capped
    } else {
        displacement
    }
}

/// Metropolis acceptance over ticks: a strictly downhill move is always
/// taken; otherwise the uniform draw below `SCALE` must fall under
/// `exp(-dE/T)` in ticks.
pub open spec fn spec_accept(de: int, temperature: int, adraw: int) -> bool {
    de < 0 || adraw < spec_exp_neg(spec_tdiv(de * SCALE, temperature))
}

/// The whole simulation state: configuration, potential parameters,
/// exactly tracked energy and virial, the phase window statistics, and the
/// adaptive displacement.
pub struct MonteCarlo {
    pub params: SysParams,
    pub rx: Vec<i64>,
    pub ry: Vec<i64>,
    pub rz: Vec<i64>,
    pub temperature: u64,
    pub energy: i128,
    pub virial: i128,
    pub phase: Phase,
    pub step_counter: u64,
    pub accept_counter: u64,
    pub energy_sum: i128,
    pub virial_sum: i128,
    pub displacement: i64,
    pub max_displacement: i64,
    pub global_step: u64,
    pub eq_steps: u64,
    pub scale_enabled: bool,
    pub scale_interval: u64,
    pub resync_interval: u64,
}

impl MonteCarlo {
    /// Everything the sampler relies on between steps; in particular the
    /// tracked energy and virial are exactly the pair sums of the current
    /// configuration (with the tail correction counted once per particle
    /// on the energy side).
    pub open spec fn wf(self) -> bool {
        &&& spec_params_wf(self.params)
        &&& spec_coords_wf(self.params, self.rx@, self.ry@, self.rz@)
        &&& 1 <= self.rx@.len()
        &&& 0 < self.temperature
        &&& self.energy == spec_total(self.params, self.rx@, self.ry@, self.rz@, false) + (
        self.rx@.len() as int) * self.params.e_corr
        &&& self.virial == spec_total(self.params, self.rx@, self.ry@, self.rz@, true)
        &&& 0 < self.displacement <= self.max_displacement
        &&& 2 * self.max_displacement <= self.params.box_x
        &&& 2 * self.max_displacement <= self.params.box_y
        &&& 2 * self.max_displacement <= self.params.box_z
        &&& -SAT_MAX <= self.energy_sum <= SAT_MAX
        &&& -SAT_MAX <= self.virial_sum <= SAT_MAX
        &&& self.accept_counter <= self.step_counter <= self.global_step <= STEP_LIMIT
        &&& 0 < self.scale_interval
        &&& 0 < self.resync_interval
        &&& (self.phase == Phase::Sampling <==> self.global_step > self.eq_steps)
    }

    /// The proposed coordinate on one axis for given draw and box length.
    pub open spec fn spec_proposed(c: int, draw: int, displacement: int, length: int) -> int {
        spec_wrap(c + spec_trial_offset(draw, displacement), length)
    }

    /// One Metropolis trial with all randomness supplied as arguments:
    /// displace particle `idx` by the offsets derived from the three
    /// draws, accept or reject by the Metropolis criterion with `adraw`,
    /// and keep the tracked energy and virial exact either way. Counters,
    /// sums, phase and displacement are left to the caller.
    pub fn trial_step(&mut self, idx: usize, dxr: u64, dyr: u64, dzr: u64, adraw: u64) -> (accepted:
        bool)
        requires
            old(self).wf(),
            idx < old(self).rx@.len(),
            dxr < SCALE,
            dyr < SCALE,
            dzr < SCALE,
            adraw < SCALE,
        ensures
            final(self).wf(),
            ({
                let o = *old(self);
                let p = o.params;
                let nx = Self::spec_proposed(
                    o.rx@[idx as int] as int, dxr as int, o.displacement as int, p.box_x as int);
                let ny = Self::spec_proposed(
                    o.ry@[idx as int] as int, dyr as int, o.displacement as int, p.box_y as int);
                let nz = Self::spec_proposed(
                    o.rz@[idx as int] as int, dzr as int, o.displacement as int, p.box_z as int);
                let rx2 = o.rx@.update(idx as int, nx as i64);
                let ry2 = o.ry@.update(idx as int, ny as i64);
                let rz2 = o.rz@.update(idx as int, nz as i64);
                let de = spec_particle(p, rx2, ry2, rz2, idx as int, false) - spec_particle(
                    p, o.rx@, o.ry@, o.rz@, idx as int, false);
                let dv = spec_particle(p, rx2, ry2, rz2, idx as int, true) - spec_particle(
                    p, o.rx@, o.ry@, o.rz@, idx as int, true);
                &&& accepted == spec_accept(de, o.temperature as int, adraw as int)
                &&& (de < 0 ==> accepted)
                &&& (accepted ==> final(self).rx@ == rx2 && final(self).ry@ == ry2 && final(
                    self).rz@ == rz2 && final(self).energy == o.energy + de && final(self).virial
                    == o.virial + dv)
                &&& (!accepted ==> final(self).rx@ == o.rx@ && final(self).ry@ == o.ry@ && final(
                    self).rz@ == o.rz@ && final(self).energy == o.energy && final(self).virial
                    == o.virial)
            }),
            final(self).params == old(self).params,
            final(self).temperature == old(self).temperature,
            final(self).phase == old(self).phase,
            final(self).step_counter == old(self).step_counter,
            final(self).accept_counter == old(self).accept_counter,
            final(self).energy_sum == old(self).energy_sum,
            final(self).virial_sum == old(self).virial_sum,
            final(self).displacement == old(self).displacement,
            final(self).max_displacement == old(self).max_displacement,
            final(self).global_step == old(self).global_step,
            final(self).eq_steps == old(self).eq_steps,
            final(self).scale_enabled == old(self).scale_enabled,
            final(self).scale_interval == old(self).scale_interval,
            final(self).resync_interval == old(self).resync_interval,
            final(self).rx@.len() == old(self).rx@.len(),
    {
        let ghost o = *old(self);
        let n: usize = self.rx.len();
        let ox: i64 = self.rx[idx];
        let oy: i64 = self.ry[idx];
        let oz: i64 = self.rz[idx];
        let (e_old, v_old) = get_particle_energy(&self.params, &self.rx, &self.ry, &self.rz, idx);
        let offx: i64 = trial_offset(dxr, self.displacement);
        let offy: i64 = trial_offset(dyr, self.displacement);
        let offz: i64 = trial_offset(dzr, self.displacement);
        let nx: i64 = wrap_coordinate(ox + offx, self.params.box_x);
        let ny: i64 = wrap_coordinate(oy + offy, self.params.box_y);
        let nz: i64 = wrap_coordinate(oz + offz, self.params.box_z);
        self.rx[idx] = nx;
        self.ry[idx] = ny;
        self.rz[idx] = nz;
        proof {
            assert(self.rx@ == o.rx@.update(idx as int, nx));
            assert(self.ry@ == o.ry@.update(idx as int, ny));
            assert(self.rz@ == o.rz@.update(idx as int, nz));
            assert forall|i: int| 0 <= i < self.rx@.len() implies 0 <= #[trigger] self.rx@[i]
                < self.params.box_x && 0 <= self.ry@[i] < self.params.box_y && 0 <= self.rz@[i]
                < self.params.box_z by {
                if i != idx as int {
                    assert(self.rx@[i] == o.rx@[i]);
                    assert(self.ry@[i] == o.ry@[i]);
                    assert(self.rz@[i] == o.rz@[i]);
                    assert(0 <= o.rx@[i] < o.params.box_x);
                    assert(0 <= o.ry@[i] < o.params.box_y);
                    assert(0 <= o.rz@[i] < o.params.box_z);
                } else {
                    assert(self.rx@[i] == nx && self.ry@[i] == ny && self.rz@[i] == nz);
                }
            }
            assert(spec_coords_wf(self.params, self.rx@, self.ry@, self.rz@));
        }
        let (e_new, v_new) = get_particle_energy(&self.params, &self.rx, &self.ry, &self.rz, idx);
        proof {
            lemma_pe_upto_bound(o.params, o.rx@, o.ry@, o.rz@, idx as int, n as int, false);
            lemma_pe_upto_bound(o.params, o.rx@, o.ry@, o.rz@, idx as int, n as int, true);
            lemma_pe_upto_bound(self.params, self.rx@, self.ry@, self.rz@, idx as int, n as int, false);
            lemma_pe_upto_bound(self.params, self.rx@, self.ry@, self.rz@, idx as int, n as int, true);
            lemma_counts_bound(n as int);
        }
        let de: i128 = e_new - e_old;
        let dv: i128 = v_new - v_old;
        let accepted: bool = if de < 0 {
            true
        } else {
            proof {
                assert((de as int) * (SCALE as int) <= 0x10000000000000000000000000000000000int)
                    by (nonlinear_arith)
                    requires
                        0 <= de <= 400_000_000_000_000_000_000_000_000_000i128,
                        SCALE == 1_000_000u64,
                ;
            }
            let x: i128 = tdiv128(de * (SCALE as i128), self.temperature as i128);
            let threshold: u64 = exp_neg_fp(x as u128);
            adraw < threshold
        };
        if accepted {
            proof {
                lemma_total_move_delta(
                    o.params, o.rx@, o.ry@, o.rz@, self.rx@, self.ry@, self.rz@, idx as int, false);
                lemma_total_move_delta(
                    o.params, o.rx@, o.ry@, o.rz@, self.rx@, self.ry@, self.rz@, idx as int, true);
                lemma_total_upto_bound(o.params, o.rx@, o.ry@, o.rz@, n as int, false);
                lemma_total_upto_bound(o.params, o.rx@, o.ry@, o.rz@, n as int, true);
                lemma_scaled_bound(n as int, o.params.e_corr as int);
            }
            self.energy = self.energy + de;
            self.virial = self.virial + dv;
        } else {
            self.rx[idx] = ox;
            self.ry[idx] = oy;
            self.rz[idx] = oz;
            proof {
                assert(self.rx@ =~= o.rx@);
                assert(self.ry@ =~= o.ry@);
                assert(self.rz@ =~= o.rz@);
            }
        }
        accepted
    }


    /// The complete effect of one schedule step for the given five draws:
    /// the Metropolis trial on particle `idx`, the window statistics fed
    /// with the post-trial totals, the phase transition at the
    /// equilibration boundary, and the displacement checkpoint (which
    /// clears the window counters and the energy sum, deliberately not the
    /// virial sum). `r` is the returned acceptance flag.
    pub open spec fn spec_step_outcome(
        o: MonteCarlo,
        m: MonteCarlo,
        r: bool,
        idx: int,
        dxr: int,
        dyr: int,
        dzr: int,
        adraw: int,
    ) -> bool {
        let p = o.params;
        let nx = Self::spec_proposed(o.rx@[idx] as int, dxr, o.displacement as int, p.box_x as int);
        let ny = Self::spec_proposed(o.ry@[idx] as int, dyr, o.displacement as int, p.box_y as int);
        let nz = Self::spec_proposed(o.rz@[idx] as int, dzr, o.displacement as int, p.box_z as int);
        let rx2 = o.rx@.update(idx, nx as i64);
        let ry2 = o.ry@.update(idx, ny as i64);
        let rz2 = o.rz@.update(idx, nz as i64);
        let de = spec_particle(p, rx2, ry2, rz2, idx, false) - spec_particle(
            p, o.rx@, o.ry@, o.rz@, idx, false);
        let dv = spec_particle(p, rx2, ry2, rz2, idx, true) - spec_particle(
            p, o.rx@, o.ry@, o.rz@, idx, true);
        let acc = spec_accept(de, o.temperature as int, adraw);
        let energy1 = if acc { o.energy + de } else { o.energy as int };
        let virial1 = if acc { o.virial + dv } else { o.virial as int };
        let ac1 = if acc { o.accept_counter + 1 } else { o.accept_counter as int };
        let sc1 = o.step_counter + 1;
        let es1 = spec_sat_add(o.energy_sum as int, energy1);
        let vs1 = spec_sat_add(o.virial_sum as int, virial1);
        let boundary = o.global_step == o.eq_steps;
        let sc2: int = if boundary { 0 } else { sc1 };
        let ac2: int = if boundary { 0 } else { ac1 };
        let es2: int = if boundary { 0 } else { es1 };
        let vs2: int = if boundary { 0 } else { vs1 };
        let scaling = o.scale_enabled && o.global_step < o.eq_steps && o.global_step
            % o.scale_interval == 0;
        let disp2 = if scaling {
            spec_scale_displacement(o.displacement as int, o.max_displacement as int, sc2, ac2)
        } else {
            o.displacement as int
        };
        &&& r == acc
        &&& (de < 0 ==> r)
        &&& m.rx@ == (if acc { rx2 } else { o.rx@ })
        &&& m.ry@ == (if acc { ry2 } else { o.ry@ })
        &&& m.rz@ == (if acc { rz2 } else { o.rz@ })
        &&& m.energy == energy1 && m.virial == virial1
        &&& m.phase == (if boundary { Phase::Sampling } else { o.phase })
        &&& m.step_counter == (if scaling { 0int } else { sc2 })
        &&& m.accept_counter == (if scaling { 0int } else { ac2 })
        &&& m.energy_sum == (if scaling { 0int } else { es2 })
        &&& m.virial_sum == vs2
        &&& m.displacement == disp2
        &&& m.global_step == o.global_step + 1
        &&& m.params == o.params && m.temperature == o.temperature
        &&& m.max_displacement == o.max_displacement && m.eq_steps == o.eq_steps
        &&& m.scale_enabled == o.scale_enabled && m.scale_interval == o.scale_interval
        &&& m.resync_interval == o.resync_interval
    }

    /// One full trial step against a live random source: draw the
    /// particle, the three offsets and the acceptance value, run the
    /// trial, resynchronise the tracked totals at the configured interval
    /// independently of acceptance (provably a no-op), update the window
    /// statistics, and apply the phase transition and the displacement
    /// checkpoint on the configured schedule. Only the five draws are
    /// chance; everything that follows from them is pinned by
    /// `spec_step_outcome`.
    pub fn step(&mut self, rng: &mut rand::rngs::ThreadRng) -> (accepted: bool)
        requires
            old(self).wf(),
            old(self).global_step < STEP_LIMIT,
        ensures
            final(self).wf(),
            final(self).global_step == old(self).global_step + 1,
            final(self).rx@.len() == old(self).rx@.len(),
            final(self).params == old(self).params,
            final(self).eq_steps == old(self).eq_steps,
            old(self).global_step == old(self).eq_steps ==> final(self).phase == Phase::Sampling,
            exists|idx: int, dxr: int, dyr: int, dzr: int, adraw: int|
                0 <= idx < old(self).rx@.len() && 0 <= dxr < SCALE && 0 <= dyr < SCALE && 0 <= dzr
                    < SCALE && 0 <= adraw < SCALE && #[trigger] Self::spec_step_outcome(
                    *old(self),
                    *final(self),
                    accepted,
                    idx,
                    dxr,
                    dyr,
                    dzr,
                    adraw,
                ),
    {
        let ghost o = *old(self);
        let s: u64 = self.global_step;
        let n: usize = self.rx.len();
        let idx: usize = draw_index(rng, n);
        let dxr: u64 = draw_below(rng, SCALE);
        let dyr: u64 = draw_below(rng, SCALE);
        let dzr: u64 = draw_below(rng, SCALE);
        let adraw: u64 = draw_below(rng, SCALE);
        let accepted: bool = self.trial_step(idx, dxr, dyr, dzr, adraw);
        if s % self.resync_interval == 0 {
            let (e, v) = get_total_energy(&self.params, &self.rx, &self.ry, &self.rz);
            // exact bookkeeping: the recomputation returns the tracked values
            proof {
                assert(e == self.energy && v == self.virial);
            }
            self.energy = e;
            self.virial = v;
        }
        if accepted {
            self.accept_counter = self.accept_counter + 1;
        }
        self.step_counter = self.step_counter + 1;
        proof {
            lemma_total_upto_bound(self.params, self.rx@, self.ry@, self.rz@, n as int, false);
            lemma_total_upto_bound(self.params, self.rx@, self.ry@, self.rz@, n as int, true);
            lemma_counts_bound(n as int);
            lemma_scaled_bound(n as int, self.params.e_corr as int);
        }
        self.energy_sum = sat_add(self.energy_sum, self.energy);
        self.virial_sum = sat_add(self.virial_sum, self.virial);
        if s == self.eq_steps {
            self.phase = Phase::Sampling;
            self.step_counter = 0;
            self.accept_counter = 0;
            self.energy_sum = 0;
            self.virial_sum = 0;
        }
        if self.scale_enabled && s < self.eq_steps && s % self.scale_interval == 0 {
            let d: i64 = scale_displacement(
                self.displacement,
                self.max_displacement,
                self.step_counter,
                self.accept_counter,
            );
            self.displacement = d;
            // the checkpoint clears the window counters and the energy sum
            // but deliberately not the virial sum
            self.step_counter = 0;
            self.accept_counter = 0;
            self.energy_sum = 0;
        }
        self.global_step = s + 1;
        proof {
            assert(Self::spec_step_outcome(
                o,
                *self,
                accepted,
                idx as int,
                dxr as int,
                dyr as int,
                dzr as int,
                adraw as int,
            ));
        }
        accepted
    }
}

/// The incrementally tracked totals always agree with a from-scratch
/// recomputation over all unique pairs: resynchronisation never has
/// anything to correct.
pub proof fn lemma_tracked_totals_match_recomputation(m: MonteCarlo)
    requires
        m.wf(),
    ensures
        m.energy == spec_total(m.params, m.rx@, m.ry@, m.rz@, false) + (m.rx@.len() as int)
            * m.params.e_corr,
        m.virial == spec_total(m.params, m.rx@, m.ry@, m.rz@, true),
{
}

/// A per-particle quantity scaled by the particle count stays small.
proof fn lemma_scaled_bound(n: int, c: int)
    requires
        0 <= n <= N_MAX,
        -PAIR_ABS_MAX <= c <= PAIR_ABS_MAX,
    ensures
        -(100_000_000_000_000_000_000_000_000_000int) <= n * c
            <= 100_000_000_000_000_000_000_000_000_000int,
{
    assert(-(100_000_000_000_000_000_000_000_000_000int) <= n * c
        <= 100_000_000_000_000_000_000_000_000_000int) by (nonlinear_arith)
        requires
            0 <= n <= 1_000_000,
            -100_000_000_000_000_000_000_000 <= c <= 100_000_000_000_000_000_000_000,
    ;
}

/// Magnitudes of the particle-count products used for overflow reasoning.
proof fn lemma_counts_bound(n: int)
    requires
        0 <= n <= N_MAX,
    ensures
        n * PAIR_ABS_MAX <= 100_000_000_000_000_000_000_000_000_000int,
        -(100_000_000_000_000_000_000_000_000_000int) <= -(n * PAIR_ABS_MAX),
        n * n * PAIR_ABS_MAX <= 100_000_000_000_000_000_000_000_000_000_000_000int,
        -(100_000_000_000_000_000_000_000_000_000_000_000int) <= -(n * n * PAIR_ABS_MAX),
        n * PAIR_ABS_MAX >= 0,
        n * n * PAIR_ABS_MAX >= 0,
{
    assert(n * PAIR_ABS_MAX <= 100_000_000_000_000_000_000_000_000_000int && n * n * PAIR_ABS_MAX
        <= 100_000_000_000_000_000_000_000_000_000_000_000int && n * PAIR_ABS_MAX >= 0 && n * n
        * PAIR_ABS_MAX >= 0) by (nonlinear_arith)
        requires
            0 <= n <= 1_000_000,
            PAIR_ABS_MAX == 100_000_000_000_000_000_000_000i128,
    ;
}

} // verus!
