//! Tests of the lattice builder, the grid, and the interaction operations.

use cloth_sim::fixed::{FX_MAX, SCALE};
use cloth_sim::params::Params;
use cloth_sim::sim::{
    apply_impulse, create_lattice, cut_nearest, edges, positions, reset_nodes_position,
    Simulation,
};

fn params_3x3() -> Params {
    Params {
        num_nodes_x: 3,
        num_nodes_y: 3,
        dt: SCALE / 60,
        m: SCALE,
        g: 100 * SCALE,
        mouse_force_x: 8000 * SCALE,
        mouse_force_y: 0,
        r0: 40 * SCALE,
        r_shear: 0,
        r_flex: 0,
        k0: 7 * SCALE,
        dampen_factor: 64881,
        enable_wind: false,
        substeps: 5,
        relax_iters: 3,
    }
}

#[test]
fn lattice_places_nodes_on_grid() {
    let sim = create_lattice(3, 3, 40 * SCALE, SCALE);
    assert_eq!(sim.nodes.len(), 9);
    for i in 0..9usize {
        let x = (i % 3) as i64;
        let y = (i / 3) as i64;
        let n = &sim.nodes[i];
        assert_eq!(n.x, x * 40 * SCALE);
        assert_eq!(n.y, -(y * 40 * SCALE));
        assert_eq!(n.prev_x, n.x);
        assert_eq!(n.prev_y, n.y);
        assert_eq!(n.ax, 0);
        assert_eq!(n.ay, 0);
        assert_eq!(n.mass, SCALE);
        assert_eq!(n.pinned, y == 0);
        assert_eq!(n.gx, i % 3);
        assert_eq!(n.gy, i / 3);
    }
}

#[test]
fn lattice_grid_maps_coordinates_to_ids() {
    let sim = create_lattice(4, 3, 40 * SCALE, SCALE);
    assert_eq!(sim.grid.0.len(), 3);
    for y in 0..3usize {
        assert_eq!(sim.grid.0[y].len(), 4);
        for x in 0..4usize {
            assert_eq!(sim.grid.0[y][x], y * 4 + x);
        }
    }
}

#[test]
fn lattice_builds_one_spring_per_grid_edge() {
    // A 2 x 2 lattice has 2 vertical and 2 horizontal springs, in row-major
    // build order: top edge before left edge at each cell.
    let sim = create_lattice(2, 2, 40 * SCALE, SCALE);
    let es = edges(&sim.edges);
    assert_eq!(es, vec![(0usize, 1usize), (0, 2), (1, 3), (2, 3)]);
    // A 3 x 3 lattice has 6 + 6 springs.
    let sim3 = create_lattice(3, 3, 40 * SCALE, SCALE);
    assert_eq!(sim3.edges.len(), 12);
}

#[test]
fn simulation_new_uses_parameter_dimensions() {
    let params = params_3x3();
    let sim = Simulation::new(&params);
    assert_eq!(sim.num_x, 3);
    assert_eq!(sim.num_y, 3);
    assert_eq!(sim.nodes.len(), 9);
    assert_eq!(sim.nodes[4].x, 40 * SCALE);
    assert_eq!(sim.nodes[4].y, -(40 * SCALE));
}

#[test]
fn positions_snapshot_matches_store() {
    let sim = create_lattice(2, 2, 40 * SCALE, SCALE);
    let ps = positions(&sim.nodes);
    assert_eq!(ps.len(), 4);
    for i in 0..4usize {
        assert_eq!(ps[i], (sim.nodes[i].x, sim.nodes[i].y));
    }
}

#[test]
fn calc_rest_lengths_derives_shear_and_flexion() {
    let mut params = params_3x3();
    params.calc_rest_lengths(40 * SCALE);
    assert_eq!(params.r0, 40 * SCALE);
    // 40 * sqrt(2): sqrt(2) is 92681 in fixed point, and 40 * 92681 is exact.
    assert_eq!(params.r_shear, 40 * 92681);
    assert_eq!(params.r_flex, 80 * SCALE);
}

#[test]
fn reset_restores_construction_positions() {
    let params = params_3x3();
    let mut sim = Simulation::new(&params);
    let constructed = positions(&sim.nodes);
    // Disturb the state by hand.
    for n in sim.nodes.iter_mut() {
        n.x += 3 * SCALE;
        n.y -= 2 * SCALE;
        n.prev_x = n.x - 17;
        n.ay = -SCALE;
    }
    reset_nodes_position(&mut sim.nodes, &params);
    assert_eq!(positions(&sim.nodes), constructed);
    for n in sim.nodes.iter() {
        assert_eq!(n.prev_x, n.x);
        assert_eq!(n.prev_y, n.y);
        // Reset recomputes positions only; the force accumulator is untouched.
        assert_eq!(n.ay, -SCALE);
    }
}

#[test]
fn reset_twice_equals_reset_once() {
    let params = params_3x3();
    let mut sim = Simulation::new(&params);
    for n in sim.nodes.iter_mut() {
        n.x -= 5 * SCALE;
        n.prev_y += 9;
    }
    reset_nodes_position(&mut sim.nodes, &params);
    let once = positions(&sim.nodes);
    let prev_once: Vec<(i64, i64)> = sim.nodes.iter().map(|n| (n.prev_x, n.prev_y)).collect();
    reset_nodes_position(&mut sim.nodes, &params);
    assert_eq!(positions(&sim.nodes), once);
    let prev_twice: Vec<(i64, i64)> = sim.nodes.iter().map(|n| (n.prev_x, n.prev_y)).collect();
    assert_eq!(prev_twice, prev_once);
}

#[test]
fn reset_does_not_restore_cut_springs() {
    let params = params_3x3();
    let mut sim = Simulation::new(&params);
    assert!(cut_nearest(&sim.nodes, &mut sim.edges, 0, 0, 40 * SCALE));
    let remaining = sim.edges.len();
    reset_nodes_position(&mut sim.nodes, &params);
    assert_eq!(sim.edges.len(), remaining);
}

#[test]
fn cut_far_from_all_springs_removes_nothing() {
    let sim_nodes = create_lattice(2, 2, 40 * SCALE, SCALE);
    let mut springs = sim_nodes.edges.clone();
    let removed = cut_nearest(&sim_nodes.nodes, &mut springs, FX_MAX, FX_MAX, 40 * SCALE);
    assert!(!removed);
    assert_eq!(springs.len(), 4);
    assert_eq!(edges(&springs), edges(&sim_nodes.edges));
}

#[test]
fn cut_near_one_spring_removes_exactly_the_first_match() {
    let sim = create_lattice(2, 2, 40 * SCALE, SCALE);
    let mut springs = sim.edges.clone();
    // Node 0 sits at the origin; the first spring in build order touching it
    // is (0, 1).
    let removed = cut_nearest(&sim.nodes, &mut springs, 0, 0, 40 * SCALE);
    assert!(removed);
    assert_eq!(springs.len(), 3);
    assert_eq!(edges(&springs), vec![(0usize, 2usize), (1, 3), (2, 3)]);
}

#[test]
fn cut_removes_at_most_one_spring_per_call() {
    let sim = create_lattice(3, 3, 40 * SCALE, SCALE);
    let mut springs = sim.edges.clone();
    let before = springs.len();
    // The centre node touches four springs; still only one goes.
    assert!(cut_nearest(&sim.nodes, &mut springs, 40 * SCALE, -(40 * SCALE), SCALE));
    assert_eq!(springs.len(), before - 1);
}

#[test]
fn impulse_reaches_only_nodes_in_radius() {
    let mut sim = create_lattice(3, 3, 40 * SCALE, SCALE);
    // Around node 4 (the centre, non-pinned), radius smaller than the node
    // spacing: only node 4 is strictly within range.
    apply_impulse(
        &mut sim.nodes,
        40 * SCALE,
        -(40 * SCALE),
        20 * SCALE,
        8000 * SCALE,
        0,
    );
    for i in 0..9usize {
        if i == 4 {
            assert_eq!(sim.nodes[i].ax, 8000 * SCALE);
        } else {
            assert_eq!(sim.nodes[i].ax, 0);
        }
        assert_eq!(sim.nodes[i].ay, 0);
    }
}

#[test]
fn impulse_skips_pinned_nodes() {
    let mut sim = create_lattice(3, 3, 40 * SCALE, SCALE);
    // Node 1 is pinned (row zero); a radius around it also covers node 4.
    apply_impulse(&mut sim.nodes, 40 * SCALE, 0, 50 * SCALE, SCALE, SCALE);
    assert_eq!(sim.nodes[1].ax, 0);
    assert_eq!(sim.nodes[1].ay, 0);
    assert_eq!(sim.nodes[4].ax, SCALE);
    assert_eq!(sim.nodes[4].ay, SCALE);
}

#[test]
fn impulse_radius_bound_is_strict() {
    let mut sim = create_lattice(2, 1, 40 * SCALE, SCALE);
    // Unpin both so the test sees the distance rule alone.
    for n in sim.nodes.iter_mut() {
        n.pinned = false;
    }
    // Node 1 is exactly 40 units away: not strictly within 40.
    apply_impulse(&mut sim.nodes, 0, 0, 40 * SCALE, SCALE, 0);
    assert_eq!(sim.nodes[0].ax, SCALE);
    assert_eq!(sim.nodes[1].ax, 0);
}
