use lj_montecarlo::analyzer::{eval_surface_tension, get_virial, SurfaceTensionAnalyzer};
use lj_montecarlo::engine::{scale_displacement, MonteCarlo, Phase};
use lj_montecarlo::fixed::{exp_neg_fp, SCALE};
use lj_montecarlo::geometry::get_distance_with_pbc;
use lj_montecarlo::potential::{
    get_particle_energy, get_total_energy, make_params, pair_energy_and_virial,
};
use lj_montecarlo::setup::setup_simulation;
use lj_montecarlo::stats::{acceptance_per_mille, average, pressure, volume_of_box};
use lj_montecarlo::trajectory::{read_frame, write_frame, Frame, TrjReader};

const S: i64 = SCALE as i64;

fn ticks(x: f64) -> i64 {
    (x * SCALE as f64).round() as i64
}

fn from_ticks(v: i128) -> f64 {
    v as f64 / SCALE as f64
}

#[test]
fn test_get_viral() {
    let result = from_ticks(get_virial(ticks(2.5)));
    let expected = 0.038999477;
    assert!((result - expected) < 0.0001, "{}", result);
}

#[test]
fn test_eval_surface_tension() {
    let expected = 2.0;
    let result = from_ticks(eval_surface_tension(
        ticks(2.0),
        ticks(5.0) as i128,
        ticks(3.0) as i128,
    ));
    assert!((result - expected).abs() < 0.0001, "{}", result);
}

#[test]
fn min_image_never_exceeds_half_box() {
    let l = ticks(10.0);
    for &(a, b) in &[(0.0, 9.9), (0.0, 5.0), (1.0, 6.1), (2.5, 2.5), (9.9, 0.1)] {
        let d = get_distance_with_pbc(ticks(a), ticks(b), l);
        assert!(2 * d.abs() <= l, "{} {} -> {}", a, b, d);
    }
    // symmetric in its two coordinates
    assert_eq!(
        get_distance_with_pbc(ticks(1.0), ticks(9.0), l),
        get_distance_with_pbc(ticks(9.0), ticks(1.0), l)
    );
}

fn bulk_params(box_len: f64, cutoff: f64, tail: bool, shift: bool) -> lj_montecarlo::potential::SysParams {
    make_params(
        ticks(box_len),
        ticks(box_len),
        ticks(box_len),
        SCALE,
        SCALE,
        ticks(cutoff) as u64,
        0,
        tail,
        shift,
    )
}

#[test]
fn total_energy_is_sum_over_unique_pairs_and_permutation_invariant() {
    let p = bulk_params(10.0, 4.0, false, false);
    let rx = vec![ticks(1.0), ticks(2.5), ticks(4.0)];
    let ry = vec![ticks(1.0), ticks(1.2), ticks(2.0)];
    let rz = vec![ticks(0.5), ticks(3.0), ticks(1.0)];
    let (e, v) = get_total_energy(&p, &rx, &ry, &rz);

    // sum the three unique pairs directly
    let mut se: i128 = 0;
    let mut sv: i128 = 0;
    let pts = [(rx[0], ry[0], rz[0]), (rx[1], ry[1], rz[1]), (rx[2], ry[2], rz[2])];
    for i in 0..3 {
        for j in 0..i {
            let r2 = lj_montecarlo::geometry::get_particle_distance_squared(
                pts[i].0, pts[i].1, pts[i].2, pts[j].0, pts[j].1, pts[j].2, p.box_x, p.box_y,
                p.box_z,
            );
            let (pe, pv) = pair_energy_and_virial(&p, r2);
            se += pe;
            sv += pv;
        }
    }
    assert_eq!(e, se);
    assert_eq!(v, sv);

    // permuting the particle labels leaves the total unchanged
    let perm = [2usize, 0, 1];
    let prx: Vec<i64> = perm.iter().map(|&k| rx[k]).collect();
    let pry: Vec<i64> = perm.iter().map(|&k| ry[k]).collect();
    let prz: Vec<i64> = perm.iter().map(|&k| rz[k]).collect();
    let (e2, v2) = get_total_energy(&p, &prx, &pry, &prz);
    assert_eq!(e, e2);
    assert_eq!(v, v2);
}

#[test]
fn particle_energy_excludes_self_interaction() {
    let p = bulk_params(10.0, 4.0, false, false);
    let rx = vec![ticks(1.0), ticks(2.0)];
    let ry = vec![ticks(1.0), ticks(1.0)];
    let rz = vec![ticks(1.0), ticks(1.0)];
    let (e0, _) = get_particle_energy(&p, &rx, &ry, &rz, 0);
    let (e1, _) = get_particle_energy(&p, &rx, &ry, &rz, 1);
    // one pair only, seen identically from both ends
    assert_eq!(e0, e1);
    let r2 = lj_montecarlo::geometry::get_particle_distance_squared(
        rx[0], ry[0], rz[0], rx[1], ry[1], rz[1], p.box_x, p.box_y, p.box_z,
    );
    let (pe, _) = pair_energy_and_virial(&p, r2);
    assert_eq!(e0, pe);
}

#[test]
fn metropolis_acceptance_matches_exponential() {
    // at zero energy difference every draw is accepted
    assert_eq!(exp_neg_fp(0), SCALE);
    // the acceptance threshold tracks exp(-x) closely
    for &x in &[0.1f64, 0.5, 1.0, 2.0, 5.0, 10.0] {
        let t = exp_neg_fp((x * SCALE as f64) as u128) as f64 / SCALE as f64;
        assert!((t - (-x).exp()).abs() < 2e-4, "x={} t={}", x, t);
    }
    // far uphill moves are never accepted
    assert_eq!(exp_neg_fp(44 * SCALE as u128), 0);
}

#[test]
fn metropolis_empirical_acceptance_frequency() {
    // two particles; the move pushes them closer by a fixed offset, so the
    // energy difference is the same in every trial; sweeping the acceptance
    // draw over its whole range gives the exact acceptance frequency
    let p = bulk_params(10.0, 4.0, false, false);
    let temperature = SCALE;  // T = 1.0
    let make_sim_at = |sep: f64| {
        let rx = vec![ticks(1.0), ticks(1.0) + ticks(sep)];
        let ry = vec![ticks(1.0), ticks(1.0)];
        let rz = vec![ticks(1.0), ticks(1.0)];
        let (e, v) = get_total_energy(&p, &rx, &ry, &rz);
        MonteCarlo {
            params: p,
            rx,
            ry,
            rz,
            temperature,
            energy: e,
            virial: v,
            phase: Phase::Equilibrating,
            step_counter: 0,
            accept_counter: 0,
            energy_sum: 0,
            virial_sum: 0,
            displacement: ticks(0.2),
            max_displacement: ticks(5.0),
            global_step: 0,
            eq_steps: 1000,
            scale_enabled: false,
            scale_interval: 5000,
            resync_interval: 10000,
        }
    };
    // the proposed move shifts particle 1 by -0.1 into the repulsive core
    // (draw 0 gives the offset -displacement/2), raising the energy
    let mut probe = make_sim_at(1.1);
    let e_before = probe.energy;
    let accepted = probe.trial_step(1, 0, 500_000, 500_000, 0);
    assert!(accepted);  // the draw 0 falls below any positive threshold
    let de = probe.energy - e_before;
    assert!(de > 0, "uphill move expected, de = {}", de);
    let expected = (-(de as f64) / SCALE as f64).exp();

    let samples: u64 = 1000;
    let mut accepts: u64 = 0;
    let mut k: u64 = 0;
    while k < samples {
        let mut sim = make_sim_at(1.1);
        let adraw = k * (SCALE / samples);
        if sim.trial_step(1, 0, 500_000, 500_000, adraw) {
            accepts += 1;
        }
        k += 1;
    }
    let freq = accepts as f64 / samples as f64;
    assert!(
        (freq - expected).abs() < 0.005,
        "empirical {} vs exp(-dE/T) {}",
        freq,
        expected
    );
    // and a strictly downhill move is always accepted, even with the
    // largest possible draw: from the repulsive core outward
    let mut sim = make_sim_at(1.0);
    let e_core = sim.energy;
    let accepted_down = sim.trial_step(1, 999_999, 500_000, 500_000, 999_999);
    let de_down = sim.energy - e_core;
    assert!(de_down < 0);
    assert!(accepted_down);
}

#[test]
fn displacement_stays_in_range_after_many_adjustments() {
    let max = ticks(5.0);
    let mut d = ticks(0.1);
    // alternating windows that force growth and shrinkage
    for k in 0..10_000u64 {
        let (steps, accepts) = if k % 2 == 0 { (100, 90) } else { (100, 5) };
        d = scale_displacement(d, max, steps, accepts);
        assert!(d > 0 && d <= max, "step {}: {}", k, d);
    }
    // a window with no accepted move leaves the displacement unchanged
    let d2 = scale_displacement(d, max, 5000, 0);
    assert_eq!(d, d2);
}

#[test]
fn incremental_energy_matches_recomputation() {
    let mut rng = rand::rng();
    let mut sim = setup_simulation(
        &mut rng,
        12,
        ticks(0.5) as u64,
        ticks(0.9) as u64,
        SCALE,
        SCALE,
        ticks(2.5) as u64,
        ticks(0.3),
        50,
        0,
        true,
        true,
        true,
    );
    for _ in 0..300 {
        sim.step(&mut rng);
    }
    let (e, v) = get_total_energy(&sim.params, &sim.rx, &sim.ry, &sim.rz);
    assert_eq!(sim.energy, e);
    assert_eq!(sim.virial, v);
    assert_eq!(sim.phase, Phase::Sampling);
}

#[test]
fn non_interacting_pair_keeps_zero_energy_and_accepts_every_move() {
    // two particles held far beyond the cutoff: no interaction at any step
    let p = bulk_params(10.0, 1.0, false, false);
    let mut sim = MonteCarlo {
        params: p,
        rx: vec![0, ticks(5.0)],
        ry: vec![0, 0],
        rz: vec![0, 0],
        temperature: SCALE,
        energy: 0,
        virial: 0,
        phase: Phase::Equilibrating,
        step_counter: 0,
        accept_counter: 0,
        energy_sum: 0,
        virial_sum: 0,
        displacement: ticks(0.05),
        max_displacement: ticks(5.0),
        global_step: 0,
        eq_steps: 1000,
        scale_enabled: false,
        scale_interval: 5000,
        resync_interval: 10000,
    };
    let (e0, v0) = get_total_energy(&sim.params, &sim.rx, &sim.ry, &sim.rz);
    assert_eq!(e0, 0);
    assert_eq!(v0, 0);
    for k in 0..50u64 {
        let accepted = sim.trial_step((k % 2) as usize, 17, 355_001, 999_999, 999_999);
        assert!(accepted, "move {} rejected", k);
        assert_eq!(sim.energy, 0);
        assert_eq!(sim.virial, 0);
    }
}

#[test]
fn bulk_system_has_no_surface_tension() {
    // eight particles on a symmetric cubic grid: the lateral and normal
    // pressures agree and the surface tension vanishes
    let l = ticks(4.0);
    let lo = ticks(1.0);
    let hi = ticks(3.0);
    let mut rx = Vec::new();
    let mut ry = Vec::new();
    let mut rz = Vec::new();
    for ix in 0..2 {
        for iy in 0..2 {
            for iz in 0..2 {
                rx.push(if ix == 0 { lo } else { hi });
                ry.push(if iy == 0 { lo } else { hi });
                rz.push(if iz == 0 { lo } else { hi });
            }
        }
    }
    let frame = Frame {
        num_particles: 8,
        box_x: l,
        box_y: l,
        box_z: l,
        temperature: SCALE,
        eps: SCALE,
        sigma: SCALE,
        cutoff: 3 * SCALE,
        rx,
        ry,
        rz,
    };
    let mut an = SurfaceTensionAnalyzer::new();
    for _ in 0..10 {
        an.process_frame(&frame);
    }
    let pxy = an.average_pxy();
    let pzz = an.average_pzz();
    let diff = from_ticks(pzz - pxy).abs();
    assert!(diff < 0.001, "pxy={} pzz={}", from_ticks(pxy), from_ticks(pzz));
    let gamma = from_ticks(eval_surface_tension(l, pzz, pxy)).abs();
    assert!(gamma < 0.002, "gamma={}", gamma);
}

#[test]
fn disabled_corrections_are_exactly_zero() {
    let p = make_params(
        ticks(8.0),
        ticks(8.0),
        ticks(8.0),
        SCALE,
        SCALE,
        ticks(3.0) as u64,
        ticks(0.7) as u64,
        false,
        false,
    );
    assert_eq!(p.shift, 0);
    assert_eq!(p.e_corr, 0);
    assert_eq!(p.p_corr, 0);
    // and enabled ones are not
    let q = make_params(
        ticks(8.0),
        ticks(8.0),
        ticks(8.0),
        SCALE,
        SCALE,
        ticks(3.0) as u64,
        ticks(0.7) as u64,
        true,
        true,
    );
    assert!(q.shift != 0);
    assert!(q.e_corr != 0);
    assert!(q.p_corr != 0);
    // the closed form: shift = 4[(1/3)^12 - (1/3)^6]
    let shift_expected = 4.0 * ((1.0f64 / 3.0).powi(12) - (1.0f64 / 3.0).powi(6));
    assert!((from_ticks(q.shift) - shift_expected).abs() < 1e-4);
}

#[test]
fn trajectory_round_trip_preserves_frames() {
    let mk = |seed: i64| Frame {
        num_particles: 3,
        box_x: ticks(6.0),
        box_y: ticks(7.0),
        box_z: ticks(8.0),
        temperature: 900_000,
        eps: SCALE,
        sigma: SCALE,
        cutoff: 3 * SCALE,
        rx: vec![seed, seed + 7, seed + 100],
        ry: vec![seed + 1, seed + 8, seed + 200],
        rz: vec![seed + 2, seed + 9, seed + 300],
    };
    let frames = [mk(1000), mk(2000), mk(3000)];
    let mut words: Vec<u64> = Vec::new();
    for f in frames.iter() {
        write_frame(&mut words, f);
    }
    let mut reader = TrjReader::new(words);
    for f in frames.iter() {
        let g = reader.next_frame().expect("frame missing");
        assert_eq!(g.num_particles, f.num_particles);
        assert_eq!(g.box_x, f.box_x);
        assert_eq!(g.box_y, f.box_y);
        assert_eq!(g.box_z, f.box_z);
        assert_eq!(g.temperature, f.temperature);
        assert_eq!(g.rx, f.rx);
        assert_eq!(g.ry, f.ry);
        assert_eq!(g.rz, f.rz);
    }
    assert!(reader.next_frame().is_none());
}

#[test]
fn trajectory_reader_skips_and_detects_end() {
    let f = Frame {
        num_particles: 1,
        box_x: S,
        box_y: S,
        box_z: S,
        temperature: SCALE,
        eps: SCALE,
        sigma: SCALE,
        cutoff: SCALE,
        rx: vec![5],
        ry: vec![6],
        rz: vec![7],
    };
    let mut words: Vec<u64> = Vec::new();
    for _ in 0..4 {
        write_frame(&mut words, &f);
    }
    let mut reader = TrjReader::new(words.clone());
    reader.skip(3);
    assert!(reader.has_frame());
    let mut frame = reader.next_frame().unwrap();
    assert!(!reader.update_with_next(&mut frame));

    // a truncated stream holds no frame
    words.truncate(5);
    assert!(read_frame(&words, 0).is_none());
    // and a malformed header (zero-sized box) is rejected
    let bad = vec![0u64, 0, 0, 0, 0, 0, 0, 0];
    assert!(read_frame(&bad, 0).is_none());
}

#[test]
fn stats_and_pressure_formulas() {
    assert_eq!(average(10 * S as i128, 4), (2.5 * SCALE as f64) as i128);
    assert_eq!(acceptance_per_mille(1, 3), 333);
    let vol = volume_of_box(ticks(2.0), ticks(3.0), ticks(4.0));
    assert_eq!(vol, 24 * S as i128);
    // pure ideal-gas pressure: density * temperature
    let p = pressure(0, 10, vol, ticks(0.5) as u64, ticks(2.0) as u64, 0);
    assert_eq!(p, S as i128);
}

#[test]
fn setup_produces_coordinates_inside_the_box() {
    let mut rng = rand::rng();
    let sim = setup_simulation(
        &mut rng,
        27,
        ticks(0.7) as u64,
        ticks(0.9) as u64,
        SCALE,
        SCALE,
        ticks(2.0) as u64,
        ticks(0.1),
        100,
        SCALE,  // a vacuum slab of one box height
        true,
        true,
        true,
    );
    assert_eq!(sim.rx.len(), 27);
    assert!(sim.params.box_z > sim.params.box_x);
    for i in 0..27 {
        assert!(sim.rx[i] >= 0 && sim.rx[i] < sim.params.box_x);
        assert!(sim.ry[i] >= 0 && sim.ry[i] < sim.params.box_y);
        assert!(sim.rz[i] >= 0 && sim.rz[i] < sim.params.box_z);
    }
    assert!(sim.displacement > 0 && sim.displacement <= sim.max_displacement);
}
