//! Tests of the integrator: free fall, pinned invariance, rest-length
//! equilibrium, wind, and a full lattice scenario.

use cloth_sim::fixed::{fx_div, fx_mul, fx_sub, SCALE};
use cloth_sim::node::Node;
use cloth_sim::params::Params;
use cloth_sim::physics::{
    apply_gravity, apply_spring_forces, apply_wind, physics_update, step, update_nodes, Edge,
    WindWave,
};
use cloth_sim::sim::{apply_impulse, positions, Simulation};

fn base_params() -> Params {
    Params {
        num_nodes_x: 3,
        num_nodes_y: 3,
        dt: SCALE / 60,
        m: SCALE,
        g: 100 * SCALE,
        mouse_force_x: 8000 * SCALE,
        mouse_force_y: 0,
        r0: 40 * SCALE,
        r_shear: 0,
        r_flex: 0,
        k0: 7 * SCALE,
        dampen_factor: 64881,
        enable_wind: false,
        substeps: 5,
        relax_iters: 3,
    }
}

#[test]
fn free_fall_matches_discrete_closed_form() {
    // One unconstrained particle, damping factor exactly one: after
    // k substeps the displacement is the triangular number tri(k) times the
    // per-substep increment, and the velocity is k increments.
    let mut params = base_params();
    params.dampen_factor = SCALE;
    let mut nodes = vec![Node::new(0, 0, 0, 0, SCALE, false)];
    let springs: Vec<Edge> = Vec::new();
    for _ in 0..10 {
        physics_update(&mut nodes, &springs, None, &params);
    }
    // The increment, computed with the library's own arithmetic.
    let dt_sub = params.dt / 5;
    assert_eq!(dt_sub, 218);
    let dd = fx_mul(
        fx_mul(fx_div(fx_sub(0, fx_mul(params.g, SCALE)), SCALE), dt_sub), dt_sub);
    assert_eq!(dd, -72);
    // 50 substeps: tri(50) = 1275, tri(49) = 1225.
    assert_eq!(nodes[0].y, 1275 * dd);
    assert_eq!(nodes[0].prev_y, 1225 * dd);
    assert_eq!(nodes[0].x, 0);
    assert_eq!(nodes[0].prev_x, 0);
    assert_eq!(nodes[0].ay, 0);
}

#[test]
fn pinned_nodes_never_move() {
    let params = base_params();
    let mut sim = Simulation::new(&params);
    let constructed = positions(&sim.nodes);
    for t in 0..100 {
        if t == 7 {
            // Aim an impulse straight at a pinned node too.
            apply_impulse(&mut sim.nodes, 0, 0, 60 * SCALE, 8000 * SCALE, 0);
        }
        physics_update(&mut sim.nodes, &sim.edges, None, &params);
    }
    for i in 0..3usize {
        assert_eq!(sim.nodes[i].x, constructed[i].0);
        assert_eq!(sim.nodes[i].y, constructed[i].1);
        assert_eq!(sim.nodes[i].prev_x, constructed[i].0);
        assert_eq!(sim.nodes[i].prev_y, constructed[i].1);
    }
    // And at least one non-pinned node did move.
    assert!(positions(&sim.nodes)[4] != constructed[4]);
}

#[test]
fn spring_at_rest_length_is_stable() {
    // One pinned and one free particle at exactly the rest length, no
    // gravity: the pair stays exactly put, tick after tick.
    let mut params = base_params();
    params.g = 0;
    let nodes0 = vec![
        Node::new(0, 0, 0, 0, SCALE, true),
        Node::new(1, 0, 40 * SCALE, 0, SCALE, false),
    ];
    let springs = vec![Edge { a: 0, b: 1 }];
    let mut nodes = nodes0.clone();
    for _ in 0..50 {
        physics_update(&mut nodes, &springs, None, &params);
    }
    for i in 0..2usize {
        assert_eq!(nodes[i].x, nodes0[i].x);
        assert_eq!(nodes[i].y, nodes0[i].y);
        assert_eq!(nodes[i].prev_x, nodes0[i].prev_x);
        assert_eq!(nodes[i].prev_y, nodes0[i].prev_y);
    }
}

#[test]
fn stretched_spring_pulls_endpoints_together() {
    let mut params = base_params();
    params.g = 0;
    let mut nodes = vec![
        Node::new(0, 0, 0, 0, SCALE, false),
        Node::new(1, 0, 80 * SCALE, 0, SCALE, false),
    ];
    let springs = vec![Edge { a: 0, b: 1 }];
    physics_update(&mut nodes, &springs, None, &params);
    assert!(nodes[0].x > 0);
    assert!(nodes[1].x < 80 * SCALE);
}

#[test]
fn node_update_carries_velocity_and_damps() {
    let mut n = Node::new(0, 0, 1000, 0, SCALE, false);
    n.prev_x = 900;
    // Damping of exactly one: the whole velocity carries over.
    n.update(1092, SCALE);
    assert_eq!(n.x, 1100);
    assert_eq!(n.prev_x, 1000);
    // Half damping: half the velocity carries over.
    let mut h = Node::new(0, 0, 1000, 0, SCALE, false);
    h.prev_x = 900;
    h.update(1092, SCALE / 2);
    assert_eq!(h.x, 1050);
}

#[test]
fn node_update_skips_pinned() {
    let mut n = Node::new(0, 0, 1000, -500, SCALE, true);
    n.prev_x = 900;
    n.ay = -3 * SCALE;
    n.update(1092, SCALE);
    assert_eq!(n.x, 1000);
    assert_eq!(n.y, -500);
    assert_eq!(n.prev_x, 900);
    assert_eq!(n.ay, -3 * SCALE);
}

#[test]
fn gravity_pass_loads_only_free_nodes() {
    let mut nodes = vec![
        Node::new(0, 0, 0, 0, SCALE, true),
        Node::new(1, 0, 0, 0, 2 * SCALE, false),
    ];
    apply_gravity(&mut nodes, 100 * SCALE);
    assert_eq!(nodes[0].ay, 0);
    // Force is gravity times mass: 100 * 2 = 200 units.
    assert_eq!(nodes[1].ay, -(200 * SCALE));
}

#[test]
fn integration_clears_the_force_accumulator() {
    let mut nodes = vec![Node::new(0, 0, 0, 0, SCALE, false)];
    apply_gravity(&mut nodes, 100 * SCALE);
    assert!(nodes[0].ay != 0);
    update_nodes(&mut nodes, 1092, SCALE);
    assert_eq!(nodes[0].ay, 0);
}

#[test]
fn relaxation_leaves_coincident_endpoints_alone() {
    // Degenerate geometry: both endpoints at one point; the sweep must not
    // divide by the zero distance and must change nothing.
    let mut nodes = vec![
        Node::new(0, 0, 7 * SCALE, 7 * SCALE, SCALE, false),
        Node::new(1, 0, 7 * SCALE, 7 * SCALE, SCALE, false),
    ];
    let springs = vec![Edge { a: 0, b: 1 }];
    apply_spring_forces(&mut nodes, &springs, 40 * SCALE, 7 * SCALE, 1092);
    assert_eq!(nodes[0].x, 7 * SCALE);
    assert_eq!(nodes[1].x, 7 * SCALE);
    assert_eq!(nodes[0].y, 7 * SCALE);
    assert_eq!(nodes[1].y, 7 * SCALE);
}

#[test]
fn wind_wave_advances_and_wraps() {
    let mut wave = WindWave {
        min_x: 0,
        min_y: -(1000 * SCALE),
        max_x: 500 * SCALE,
        max_y: 0,
        force_x: 1000 * SCALE,
        force_y: 300 * SCALE,
    };
    // Shift per tick: 1000 * dt = 1000 * 1092 / 65536 units.
    wave.advance(1092, 800 * SCALE);
    let shift = fx_mul(1000 * SCALE, 1092);
    assert_eq!(wave.min_x, shift);
    assert_eq!(wave.max_x, 500 * SCALE + shift);
    // Once the left edge passes the width, both bounds wrap back by it.
    let mut far = WindWave { min_x: 800 * SCALE, max_x: 1300 * SCALE, ..wave };
    far.advance(1092, 800 * SCALE);
    assert_eq!(far.min_x, shift);
    assert_eq!(far.max_x, 500 * SCALE + shift);
}

#[test]
fn wind_pass_loads_nodes_inside_the_rectangle() {
    let wave = WindWave {
        min_x: 0,
        min_y: -(100 * SCALE),
        max_x: 100 * SCALE,
        max_y: 0,
        force_x: 5 * SCALE,
        force_y: SCALE,
    };
    let mut nodes = vec![
        Node::new(0, 0, 50 * SCALE, -(50 * SCALE), SCALE, false),
        Node::new(1, 0, 200 * SCALE, -(50 * SCALE), SCALE, false),
        Node::new(2, 0, 50 * SCALE, -(50 * SCALE), SCALE, true),
    ];
    apply_wind(&mut nodes, &wave);
    assert_eq!(nodes[0].ax, 5 * SCALE);
    assert_eq!(nodes[0].ay, SCALE);
    assert_eq!(nodes[1].ax, 0);
    assert_eq!(nodes[2].ax, 0);
}

#[test]
fn step_without_wind_equals_physics_update() {
    let params = base_params();
    let sim = Simulation::new(&params);
    let mut a = sim.nodes.clone();
    let mut b = sim.nodes.clone();
    let mut wave = WindWave {
        min_x: 0,
        min_y: -(1000 * SCALE),
        max_x: 500 * SCALE,
        max_y: 0,
        force_x: 1000 * SCALE,
        force_y: 300 * SCALE,
    };
    let wave0 = wave.clone();
    step(&mut a, &sim.edges, &mut wave, &params, 800 * SCALE);
    physics_update(&mut b, &sim.edges, None, &params);
    assert_eq!(positions(&a), positions(&b));
    // Wind disabled: the wave is untouched.
    assert_eq!(wave.min_x, wave0.min_x);
    assert_eq!(wave.max_x, wave0.max_x);
}

#[test]
fn step_with_wind_advances_wave_and_pushes_nodes() {
    let mut params = base_params();
    params.enable_wind = true;
    params.g = 0;
    let sim = Simulation::new(&params);
    let mut nodes = sim.nodes.clone();
    let mut wave = WindWave {
        min_x: -(500 * SCALE),
        min_y: -(1000 * SCALE),
        max_x: 500 * SCALE,
        max_y: 0,
        force_x: 1000 * SCALE,
        force_y: 0,
    };
    step(&mut nodes, &sim.edges, &mut wave, &params, 800 * SCALE);
    // The wave moved right by force_x * dt.
    assert_eq!(wave.min_x, -(500 * SCALE) + fx_mul(1000 * SCALE, params.dt));
    // A free node inside the rectangle was pushed along +x.
    assert!(nodes[4].x > 40 * SCALE);
}

#[test]
fn lattice_under_gravity_stays_bounded() {
    // A 3 x 3 lattice, row zero pinned, run for 100 ticks: the pinned row
    // stays at its construction position exactly, and every other node stays
    // within 500 units of its construction position.
    let params = base_params();
    let mut sim = Simulation::new(&params);
    let constructed = positions(&sim.nodes);
    for _ in 0..100 {
        physics_update(&mut sim.nodes, &sim.edges, None, &params);
    }
    let after = positions(&sim.nodes);
    for i in 0..3usize {
        assert_eq!(after[i], constructed[i]);
    }
    for i in 0..9usize {
        assert!((after[i].0 - constructed[i].0).abs() <= 500 * SCALE);
        assert!((after[i].1 - constructed[i].1).abs() <= 500 * SCALE);
    }
}
