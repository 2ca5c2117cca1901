//! Laws of the simulation, proved against the functional models: pinned
//! particles never move, resets are idempotent and restore the construction
//! positions, and constraint removal is bounded and exact.

use vstd::prelude::*;
use crate::fixed::{
    dist_s, fx_add_s, fx_div_s, fx_in_range, fx_mul_s, fx_sub_s, lemma_div_down_sign,
    lemma_fx_add_zero, lemma_fx_div_zero, lemma_fx_half_zero, lemma_fx_mul_scale,
    lemma_fx_mul_zero, FX_MAX, SCALE,
};
use crate::node::{gravity_v, integrate_v, node_wf, NodeV};
use crate::params::{params_wf, ParamsV};
use crate::physics::{
    dt_sub_v, gravity_pass_v, integrate_pass_v, relax_delta_v, relax_edge_v, relax_from_v,
    relax_iters_v, relax_pair_v, substep_v, substeps_v, tick_v, ticks_v, wind_pass_v, EdgeV,
    WindV,
};
use crate::sim::{
    edge_hit_v, first_hit_v, lattice_node_v, reset_node_v, reset_pass_v, rest_x_v, rest_y_v,
};

verus! {

/// A relaxation of one spring keeps the store's length.
proof fn lemma_relax_edge_len(nodes: Seq<NodeV>, e: EdgeV, r0: int, k0: int, dt: int)
    ensures
        relax_edge_v(nodes, e, r0, k0, dt).len() == nodes.len(),
{
}

/// A relaxation sweep keeps the store's length.
proof fn lemma_relax_from_len(nodes: Seq<NodeV>, edges: Seq<EdgeV>, i: int, r0: int, k0: int, dt: int)
    ensures
        relax_from_v(nodes, edges, i, r0, k0, dt).len() == nodes.len(),
    decreases edges.len() - i,
{
    if 0 <= i < edges.len() {
        lemma_relax_from_len(relax_edge_v(nodes, edges[i], r0, k0, dt), edges, i + 1, r0, k0, dt);
    }
}

/// Repeated relaxation sweeps keep the store's length.
proof fn lemma_relax_iters_len(
    nodes: Seq<NodeV>,
    edges: Seq<EdgeV>,
    k: nat,
    r0: int,
    k0: int,
    dt: int,
)
    ensures
        relax_iters_v(nodes, edges, k, r0, k0, dt).len() == nodes.len(),
    decreases k,
{
    if k > 0 {
        lemma_relax_from_len(nodes, edges, 0, r0, k0, dt);
        lemma_relax_iters_len(
            relax_from_v(nodes, edges, 0, r0, k0, dt),
            edges,
            (k - 1) as nat,
            r0,
            k0,
            dt,
        );
    }
}

/// One inner iteration keeps the store's length.
proof fn lemma_substep_len(nodes: Seq<NodeV>, edges: Seq<EdgeV>, w: Option<WindV>, p: ParamsV)
    ensures
        substep_v(nodes, edges, w, p).len() == nodes.len(),
{
    let n1 = gravity_pass_v(nodes, p.g);
    let n2 = match w {
        Option::Some(wv) => wind_pass_v(n1, wv),
        Option::None => n1,
    };
    let n3 = integrate_pass_v(n2, dt_sub_v(p), p.dampen_factor);
    lemma_relax_iters_len(n3, edges, p.relax_iters as nat, p.r0, p.k0, dt_sub_v(p));
}

/// Repeated inner iterations keep the store's length.
proof fn lemma_substeps_len(
    nodes: Seq<NodeV>,
    edges: Seq<EdgeV>,
    w: Option<WindV>,
    p: ParamsV,
    k: nat,
)
    ensures
        substeps_v(nodes, edges, w, p, k).len() == nodes.len(),
    decreases k,
{
    if k > 0 {
        lemma_substep_len(nodes, edges, w, p);
        lemma_substeps_len(substep_v(nodes, edges, w, p), edges, w, p, (k - 1) as nat);
    }
}

/// Relaxing one spring never touches a pinned particle.
proof fn lemma_relax_edge_pinned(
    nodes: Seq<NodeV>,
    e: EdgeV,
    r0: int,
    k0: int,
    dt: int,
    i: int,
)
    requires
        0 <= i < nodes.len(),
        nodes[i].pinned,
    ensures
        relax_edge_v(nodes, e, r0, k0, dt)[i] == nodes[i],
{
}

/// A relaxation sweep never touches a pinned particle.
proof fn lemma_relax_from_pinned(
    nodes: Seq<NodeV>,
    edges: Seq<EdgeV>,
    j: int,
    r0: int,
    k0: int,
    dt: int,
    i: int,
)
    requires
        0 <= i < nodes.len(),
        nodes[i].pinned,
    ensures
        relax_from_v(nodes, edges, j, r0, k0, dt)[i] == nodes[i],
    decreases edges.len() - j,
{
    if 0 <= j < edges.len() {
        let n2 = relax_edge_v(nodes, edges[j], r0, k0, dt);
        lemma_relax_edge_pinned(nodes, edges[j], r0, k0, dt, i);
        lemma_relax_edge_len(nodes, edges[j], r0, k0, dt);
        lemma_relax_from_pinned(n2, edges, j + 1, r0, k0, dt, i);
    }
}

/// Repeated relaxation sweeps never touch a pinned particle.
proof fn lemma_relax_iters_pinned(
    nodes: Seq<NodeV>,
    edges: Seq<EdgeV>,
    k: nat,
    r0: int,
    k0: int,
    dt: int,
    i: int,
)
    requires
        0 <= i < nodes.len(),
        nodes[i].pinned,
    ensures
        relax_iters_v(nodes, edges, k, r0, k0, dt)[i] == nodes[i],
    decreases k,
{
    if k > 0 {
        let n2 = relax_from_v(nodes, edges, 0, r0, k0, dt);
        lemma_relax_from_pinned(nodes, edges, 0, r0, k0, dt, i);
        lemma_relax_from_len(nodes, edges, 0, r0, k0, dt);
        lemma_relax_iters_pinned(n2, edges, (k - 1) as nat, r0, k0, dt, i);
    }
}

/// One inner iteration never touches a pinned particle.
proof fn lemma_substep_pinned(
    nodes: Seq<NodeV>,
    edges: Seq<EdgeV>,
    w: Option<WindV>,
    p: ParamsV,
    i: int,
)
    requires
        0 <= i < nodes.len(),
        nodes[i].pinned,
    ensures
        substep_v(nodes, edges, w, p)[i] == nodes[i],
{
    let n1 = gravity_pass_v(nodes, p.g);
    let n2 = match w {
        Option::Some(wv) => wind_pass_v(n1, wv),
        Option::None => n1,
    };
    let n3 = integrate_pass_v(n2, dt_sub_v(p), p.dampen_factor);
    assert(n1[i] == nodes[i]);
    assert(n2[i] == nodes[i]);
    assert(n3[i] == nodes[i]);
    lemma_relax_iters_pinned(
        n3,
        edges,
        p.relax_iters as nat,
        p.r0,
        p.k0,
        dt_sub_v(p),
        i,
    );
}

/// Repeated inner iterations never touch a pinned particle.
proof fn lemma_substeps_pinned(
    nodes: Seq<NodeV>,
    edges: Seq<EdgeV>,
    w: Option<WindV>,
    p: ParamsV,
    k: nat,
    i: int,
)
    requires
        0 <= i < nodes.len(),
        nodes[i].pinned,
    ensures
        substeps_v(nodes, edges, w, p, k)[i] == nodes[i],
    decreases k,
{
    if k > 0 {
        lemma_substep_pinned(nodes, edges, w, p, i);
        lemma_substep_len(nodes, edges, w, p);
        lemma_substeps_pinned(substep_v(nodes, edges, w, p), edges, w, p, (k - 1) as nat, i);
    }
}

/// Pinned invariance, one tick: whatever the spring set, wind zone and
/// parameters, a tick leaves a pinned particle exactly unchanged — position,
/// previous position, force, everything.
pub proof fn lemma_tick_pinned(
    nodes: Seq<NodeV>,
    edges: Seq<EdgeV>,
    w: Option<WindV>,
    p: ParamsV,
    i: int,
)
    requires
        0 <= i < nodes.len(),
        nodes[i].pinned,
    ensures
        tick_v(nodes, edges, w, p)[i] == nodes[i],
{
    lemma_substeps_pinned(nodes, edges, w, p, p.substeps as nat, i);
}

/// Pinned invariance: over any number of ticks, a pinned particle is exactly
/// unchanged.
pub proof fn lemma_ticks_pinned(
    nodes: Seq<NodeV>,
    edges: Seq<EdgeV>,
    w: Option<WindV>,
    p: ParamsV,
    n: nat,
    i: int,
)
    requires
        0 <= i < nodes.len(),
        nodes[i].pinned,
    ensures
        ticks_v(nodes, edges, w, p, n)[i] == nodes[i],
    decreases n,
{
    if n > 0 {
        lemma_tick_pinned(nodes, edges, w, p, i);
        lemma_substeps_len(nodes, edges, w, p, p.substeps as nat);
        lemma_ticks_pinned(tick_v(nodes, edges, w, p), edges, w, p, (n - 1) as nat, i);
    }
}

/// Reset idempotence: resetting twice in a row gives exactly the state of
/// resetting once, for every store and rest length.
pub proof fn lemma_reset_idempotent(s: Seq<NodeV>, r0: int)
    ensures
        reset_pass_v(reset_pass_v(s, r0), r0) == reset_pass_v(s, r0),
{
    assert(reset_pass_v(reset_pass_v(s, r0), r0) =~= reset_pass_v(s, r0));
}

/// Reset restores the construction placement: a particle with lattice
/// coordinate `(gx, gy)` is put exactly where the lattice builder puts it,
/// position and previous position both.
pub proof fn lemma_reset_matches_lattice(n: NodeV, r0: int)
    ensures
        reset_node_v(n, r0).x == lattice_node_v(n.gx, n.gy, r0, n.mass).x,
        reset_node_v(n, r0).y == lattice_node_v(n.gx, n.gy, r0, n.mass).y,
        reset_node_v(n, r0).prev_x == lattice_node_v(n.gx, n.gy, r0, n.mass).prev_x,
        reset_node_v(n, r0).prev_y == lattice_node_v(n.gx, n.gy, r0, n.mass).prev_y,
        reset_node_v(n, r0).x == rest_x_v(n.gx, r0),
        reset_node_v(n, r0).y == rest_y_v(n.gy, r0),
{
}

/// Bounded constraint removal, far case: a point within reach of no spring
/// hits nothing, so `cut_nearest` removes nothing.
pub proof fn lemma_cut_far_none(
    nodes: Seq<NodeV>,
    edges: Seq<EdgeV>,
    i: int,
    px: int,
    py: int,
    thr: int,
)
    requires
        0 <= i,
        forall|j: int| 0 <= j < edges.len() ==> !edge_hit_v(nodes, #[trigger] edges[j], px, py, thr),
    ensures
        first_hit_v(nodes, edges, i, px, py, thr) == Option::<int>::None,
    decreases edges.len() - i,
{
    if 0 <= i < edges.len() {
        lemma_cut_far_none(nodes, edges, i + 1, px, py, thr);
    }
}

/// Bounded constraint removal, near case: if spring `j` is within reach and
/// no earlier spring is, `cut_nearest` removes exactly spring `j`.
pub proof fn lemma_cut_first_hit(
    nodes: Seq<NodeV>,
    edges: Seq<EdgeV>,
    j: int,
    px: int,
    py: int,
    thr: int,
)
    requires
        0 <= j < edges.len(),
        edge_hit_v(nodes, edges[j], px, py, thr),
        forall|q: int| 0 <= q < j ==> !edge_hit_v(nodes, #[trigger] edges[q], px, py, thr),
    ensures
        first_hit_v(nodes, edges, 0, px, py, thr) == Option::Some(j),
{
    lemma_cut_first_hit_from(nodes, edges, 0, j, px, py, thr);
}

/// Helper: scanning from `i` with the first hit at `j >= i` finds `j`.
proof fn lemma_cut_first_hit_from(
    nodes: Seq<NodeV>,
    edges: Seq<EdgeV>,
    i: int,
    j: int,
    px: int,
    py: int,
    thr: int,
)
    requires
        0 <= i <= j < edges.len(),
        edge_hit_v(nodes, edges[j], px, py, thr),
        forall|q: int| i <= q < j ==> !edge_hit_v(nodes, #[trigger] edges[q], px, py, thr),
    ensures
        first_hit_v(nodes, edges, i, px, py, thr) == Option::Some(j),
    decreases j - i,
{
    if i < j {
        lemma_cut_first_hit_from(nodes, edges, i + 1, j, px, py, thr);
    }
}

/// If one relaxation sweep leaves the store unchanged, so does any number of
/// sweeps.
proof fn lemma_relax_iters_fixed(
    nodes: Seq<NodeV>,
    edges: Seq<EdgeV>,
    k: nat,
    r0: int,
    k0: int,
    dt: int,
)
    requires
        relax_from_v(nodes, edges, 0, r0, k0, dt) == nodes,
    ensures
        relax_iters_v(nodes, edges, k, r0, k0, dt) == nodes,
    decreases k,
{
    if k > 0 {
        lemma_relax_iters_fixed(nodes, edges, (k - 1) as nat, r0, k0, dt);
    }
}

/// If one inner iteration leaves the store unchanged, so does any number.
proof fn lemma_substeps_fixed(
    nodes: Seq<NodeV>,
    edges: Seq<EdgeV>,
    w: Option<WindV>,
    p: ParamsV,
    k: nat,
)
    requires
        substep_v(nodes, edges, w, p) == nodes,
    ensures
        substeps_v(nodes, edges, w, p, k) == nodes,
    decreases k,
{
    if k > 0 {
        lemma_substeps_fixed(nodes, edges, w, p, (k - 1) as nat);
    }
}

/// If one tick leaves the store unchanged, so does any number of ticks.
proof fn lemma_ticks_fixed(
    nodes: Seq<NodeV>,
    edges: Seq<EdgeV>,
    w: Option<WindV>,
    p: ParamsV,
    n: nat,
)
    requires
        tick_v(nodes, edges, w, p) == nodes,
    ensures
        ticks_v(nodes, edges, w, p, n) == nodes,
    decreases n,
{
    if n > 0 {
        lemma_ticks_fixed(nodes, edges, w, p, (n - 1) as nat);
    }
}

/// A particle at rest (previous position equal to the position, no
/// accumulated force) with zero gravity is unchanged by the gravity pass and
/// the integration pass.
proof fn lemma_node_at_rest_still(n: NodeV, p: ParamsV)
    requires
        node_wf(n),
        n.prev_x == n.x,
        n.prev_y == n.y,
        n.ax == 0,
        n.ay == 0,
        params_wf(p),
        p.g == 0,
    ensures
        gravity_v(n, p.g) == n,
        integrate_v(n, dt_sub_v(p), p.dampen_factor) == n,
{
    lemma_fx_mul_zero(n.mass);
    lemma_fx_add_zero(n.ay);
    assert(gravity_v(n, 0) == n);
    lemma_fx_div_zero(n.mass);
    let dts = dt_sub_v(p);
    lemma_fx_mul_zero(dts);
    lemma_fx_mul_zero(p.dampen_factor);
    lemma_fx_add_zero(n.x);
    lemma_fx_add_zero(n.y);
    assert(integrate_v(n, dts, p.dampen_factor) == n);
}

/// A spring whose measured endpoint distance equals the rest length applies
/// no correction at all.
proof fn lemma_relax_pair_at_rest(a: NodeV, b: NodeV, r0: int, k0: int, dt: int)
    requires
        node_wf(a),
        node_wf(b),
        fx_in_range(r0),
        dist_s(a.x, a.y, b.x, b.y) == r0,
    ensures
        relax_pair_v(a, b, r0, k0, dt) == (a, b),
{
    let dist = dist_s(a.x, a.y, b.x, b.y);
    if dist != 0 {
        lemma_fx_add_zero(r0);
        assert(fx_sub_s(r0, dist) == 0);
        lemma_fx_mul_zero(k0);
        let ux = fx_div_s(fx_sub_s(a.x, b.x), dist);
        let uy = fx_div_s(fx_sub_s(a.y, b.y), dist);
        lemma_fx_mul_zero(ux);
        lemma_fx_mul_zero(uy);
        lemma_fx_div_zero(a.mass);
        lemma_fx_div_zero(b.mass);
        lemma_fx_half_zero();
        lemma_fx_mul_zero(dt);
        assert(relax_delta_v(ux, 0, a.mass, dt) == 0);
        assert(relax_delta_v(uy, 0, a.mass, dt) == 0);
        assert(relax_delta_v(ux, 0, b.mass, dt) == 0);
        assert(relax_delta_v(uy, 0, b.mass, dt) == 0);
        lemma_fx_add_zero(a.x);
        lemma_fx_add_zero(a.y);
        lemma_fx_add_zero(b.x);
        lemma_fx_add_zero(b.y);
    }
}

/// Rest-length equilibrium: two particles at rest joined by a single spring,
/// with zero gravity and no wind, released with their measured distance
/// exactly at the rest length, stay exactly where they are for any number of
/// ticks (stable equilibrium, exact in the fixed-point model).
pub proof fn lemma_rest_length_equilibrium(a: NodeV, b: NodeV, e: EdgeV, p: ParamsV, n: nat)
    requires
        node_wf(a),
        node_wf(b),
        params_wf(p),
        p.g == 0,
        a.prev_x == a.x,
        a.prev_y == a.y,
        a.ax == 0,
        a.ay == 0,
        b.prev_x == b.x,
        b.prev_y == b.y,
        b.ax == 0,
        b.ay == 0,
        e.a == 0,
        e.b == 1,
        dist_s(a.x, a.y, b.x, b.y) == p.r0,
    ensures
        ticks_v(seq![a, b], seq![e], Option::None, p, n) == seq![a, b],
{
    let s = seq![a, b];
    let es = seq![e];
    let dts = dt_sub_v(p);
    lemma_node_at_rest_still(a, p);
    lemma_node_at_rest_still(b, p);
    assert(gravity_pass_v(s, p.g) =~= s);
    assert(integrate_pass_v(s, dts, p.dampen_factor) =~= s);
    lemma_relax_pair_at_rest(a, b, p.r0, p.k0, dts);
    assert(relax_edge_v(s, e, p.r0, p.k0, dts) =~= s);
    assert(relax_from_v(s, es, 0, p.r0, p.k0, dts) == relax_from_v(
        relax_edge_v(s, e, p.r0, p.k0, dts),
        es,
        1,
        p.r0,
        p.k0,
        dts,
    ));
    assert(relax_from_v(s, es, 0, p.r0, p.k0, dts) == s);
    lemma_relax_iters_fixed(s, es, p.relax_iters as nat, p.r0, p.k0, dts);
    assert(substep_v(s, es, Option::None, p) == s);
    lemma_substeps_fixed(s, es, Option::None, p, p.substeps as nat);
    assert(tick_v(s, es, Option::None, p) == s);
    lemma_ticks_fixed(s, es, Option::None, p, n);
}

/// The `k`-th triangular number: `1 + 2 + ... + k`.
pub open spec fn tri(k: nat) -> nat
    decreases k,
{
    if k == 0 {
        0
    } else {
        k + tri((k - 1) as nat)
    }
}

/// The triangular numbers have the closed form `k * (k + 1) / 2`.
pub proof fn lemma_tri_closed_form(k: nat)
    ensures
        2 * tri(k) == k * (k + 1),
    decreases k,
{
    if k > 0 {
        let km1 = (k - 1) as nat;
        lemma_tri_closed_form(km1);
        assert(tri(k) == k + tri(km1));
        assert(2 * tri(k) == k * (k + 1)) by (nonlinear_arith)
            requires
                tri(k) == k + tri(km1),
                2 * tri(km1) == km1 * (km1 + 1),
                km1 == k - 1,
                k >= 1,
        ;
    } else {
        assert(2 * tri(k) == k * (k + 1)) by (nonlinear_arith)
            requires
                k == 0,
                tri(k) == 0,
        ;
    }
}

/// The fixed downward position increment one substep of free fall adds: the
/// force `-(g * mass)` divided by the mass, times the substep duration
/// squared, each operation in fixed-point arithmetic.
pub open spec fn grav_delta_v(g: int, m: int, dt: int) -> int {
    fx_mul_s(
        fx_mul_s(
            fx_div_s(fx_sub_s(0, fx_mul_s(g, m)), m),
            dt,
        ),
        dt,
    )
}

/// The exact state of a free-falling particle after `k` substeps: it has
/// fallen by the triangular number `tri(k)` times the per-substep increment,
/// its velocity is `k` increments, and its force accumulator is empty.
pub open spec fn grav_state_v(n0: NodeV, dd: int, k: nat) -> NodeV {
    NodeV { y: n0.y + tri(k) * dd, prev_y: n0.y + tri(k) * dd - k * dd, ..n0 }
}

/// The free-fall increment points downward and lies in the fixed-point range.
proof fn lemma_grav_delta_bounds(g: int, m: int, dt: int)
    requires
        0 <= g <= FX_MAX,
        1 <= m <= FX_MAX,
        0 <= dt <= FX_MAX,
    ensures
        -FX_MAX <= grav_delta_v(g, m, dt) <= 0,
{
    assert(g * m >= 0) by (nonlinear_arith)
        requires
            g >= 0 && m >= 0,
    ;
    lemma_div_down_sign(g * m, SCALE as int);
    let gm = fx_mul_s(g, m);
    assert(0 <= gm <= FX_MAX);
    let f = fx_sub_s(0, gm);
    assert(-FX_MAX <= f <= 0);
    assert(f * SCALE <= 0) by (nonlinear_arith)
        requires
            f <= 0,
    ;
    lemma_div_down_sign(f * SCALE, m);
    let acc = fx_div_s(f, m);
    assert(-FX_MAX <= acc <= 0);
    assert(acc * dt <= 0) by (nonlinear_arith)
        requires
            acc <= 0 && dt >= 0,
    ;
    lemma_div_down_sign(acc * dt, SCALE as int);
    let t1 = fx_mul_s(acc, dt);
    assert(-FX_MAX <= t1 <= 0);
    assert(t1 * dt <= 0) by (nonlinear_arith)
        requires
            t1 <= 0 && dt >= 0,
    ;
    lemma_div_down_sign(t1 * dt, SCALE as int);
}

/// The substep duration of well-formed parameters is a nonnegative in-range
/// scalar.
proof fn lemma_dt_sub_bounds(p: ParamsV)
    requires
        params_wf(p),
    ensures
        0 <= dt_sub_v(p) <= FX_MAX,
{
    lemma_div_down_sign(p.dt, p.substeps);
    vstd::arithmetic::div_mod::lemma_div_nonincreasing(p.dt, p.substeps);
}

/// Applying `a + b` inner iterations is applying `a`, then `b`.
proof fn lemma_substeps_add(
    nodes: Seq<NodeV>,
    edges: Seq<EdgeV>,
    w: Option<WindV>,
    p: ParamsV,
    a: nat,
    b: nat,
)
    ensures
        substeps_v(nodes, edges, w, p, a + b) == substeps_v(
            substeps_v(nodes, edges, w, p, a),
            edges,
            w,
            p,
            b,
        ),
    decreases a,
{
    if a > 0 {
        lemma_substeps_add(substep_v(nodes, edges, w, p), edges, w, p, (a - 1) as nat, b);
    }
}

/// `k > 0` inner iterations are `k - 1` iterations followed by one more.
proof fn lemma_substeps_unroll_right(
    nodes: Seq<NodeV>,
    edges: Seq<EdgeV>,
    w: Option<WindV>,
    p: ParamsV,
    k: nat,
)
    requires
        k > 0,
    ensures
        substeps_v(nodes, edges, w, p, k) == substep_v(
            substeps_v(nodes, edges, w, p, (k - 1) as nat),
            edges,
            w,
            p,
        ),
    decreases k,
{
    let s1 = substep_v(nodes, edges, w, p);
    if k == 1 {
        assert(substeps_v(nodes, edges, w, p, 1) == substeps_v(s1, edges, w, p, 0));
        assert(substeps_v(s1, edges, w, p, 0) == s1);
        assert(substeps_v(nodes, edges, w, p, 0) == nodes);
    } else {
        lemma_substeps_unroll_right(s1, edges, w, p, (k - 1) as nat);
        assert(substeps_v(nodes, edges, w, p, k) == substeps_v(s1, edges, w, p, (k - 1) as nat));
        assert(substeps_v(nodes, edges, w, p, (k - 1) as nat) == substeps_v(
            s1,
            edges,
            w,
            p,
            (k - 2) as nat,
        ));
    }
}

/// `n` ticks are `n * substeps` inner iterations.
proof fn lemma_ticks_as_substeps(
    nodes: Seq<NodeV>,
    edges: Seq<EdgeV>,
    w: Option<WindV>,
    p: ParamsV,
    n: nat,
)
    requires
        1 <= p.substeps,
    ensures
        ticks_v(nodes, edges, w, p, n) == substeps_v(
            nodes,
            edges,
            w,
            p,
            (n * p.substeps) as nat,
        ),
    decreases n,
{
    assert(n * p.substeps >= 0) by (nonlinear_arith)
        requires
            n >= 0 && p.substeps >= 0,
    ;
    if n == 0 {
        assert(n * p.substeps == 0) by (nonlinear_arith)
            requires
                n == 0,
        ;
    } else {
        assert((n - 1) * p.substeps >= 0) by (nonlinear_arith)
            requires
                n >= 1 && p.substeps >= 0,
        ;
        lemma_ticks_as_substeps(tick_v(nodes, edges, w, p), edges, w, p, (n - 1) as nat);
        lemma_substeps_add(
            nodes,
            edges,
            w,
            p,
            p.substeps as nat,
            ((n - 1) * p.substeps) as nat,
        );
        assert(p.substeps + (n - 1) * p.substeps == n * p.substeps) by (nonlinear_arith);
    }
}

/// Free fall, substep level: starting at rest with an empty force
/// accumulator, no springs and no wind, after `k` substeps the particle has
/// fallen exactly `tri(k)` increments — the discrete closed form of
/// uniformly accelerated motion — provided nothing saturates on the way.
proof fn lemma_gravity_substeps(n0: NodeV, p: ParamsV, k: nat)
    requires
        node_wf(n0),
        !n0.pinned,
        n0.prev_x == n0.x,
        n0.prev_y == n0.y,
        n0.ax == 0,
        n0.ay == 0,
        params_wf(p),
        p.dampen_factor == SCALE,
        0 <= p.g,
        tri(k) * grav_delta_v(p.g, n0.mass, dt_sub_v(p)) >= -FX_MAX,
        n0.y + tri(k) * grav_delta_v(p.g, n0.mass, dt_sub_v(p)) >= -FX_MAX,
    ensures
        substeps_v(seq![n0], Seq::empty(), Option::None, p, k) == seq![
            grav_state_v(n0, grav_delta_v(p.g, n0.mass, dt_sub_v(p)), k),
        ],
    decreases k,
{
    let dts = dt_sub_v(p);
    let dd = grav_delta_v(p.g, n0.mass, dts);
    let es = Seq::<EdgeV>::empty();
    lemma_dt_sub_bounds(p);
    lemma_grav_delta_bounds(p.g, n0.mass, dts);
    if k == 0 {
        assert(tri(k) == 0);
        assert(tri(k) * dd == 0) by (nonlinear_arith)
            requires
                tri(k) == 0,
        ;
        assert(k * dd == 0) by (nonlinear_arith)
            requires
                k == 0,
        ;
        assert(grav_state_v(n0, dd, k).y == n0.y);
        assert(grav_state_v(n0, dd, k).prev_y == n0.prev_y);
        assert(grav_state_v(n0, dd, k) == n0);
        assert(substeps_v(seq![n0], es, Option::None, p, 0) == seq![n0]);
    } else {
        let km1 = (k - 1) as nat;
        assert(tri(k) == k + tri(km1));
        assert(tri(k) * dd == k * dd + tri(km1) * dd) by (nonlinear_arith)
            requires
                tri(k) == k + tri(km1),
        ;
        assert(k * dd <= 0 && (k - 1) * dd <= 0 && tri(km1) * dd <= 0 && tri(k) * dd <= 0)
            by (nonlinear_arith)
            requires
                dd <= 0 && k >= 1,
        ;
        assert(tri(km1) >= km1);
        assert(km1 * dd >= tri(km1) * dd) by (nonlinear_arith)
            requires
                dd <= 0 && km1 <= tri(km1),
        ;
        assert(tri(km1) * dd >= tri(k) * dd);
        lemma_gravity_substeps(n0, p, km1);
        let sk1 = grav_state_v(n0, dd, km1);
        let y1 = n0.y + tri(km1) * dd;
        let yk = n0.y + tri(k) * dd;
        assert(sk1.y == y1 && sk1.prev_y == y1 - km1 * dd);
        assert(-FX_MAX <= y1 <= FX_MAX);
        lemma_substeps_unroll_right(seq![n0], es, Option::None, p, k);
        // One more substep from the state after k - 1.
        let s = seq![sk1];
        let g1 = gravity_pass_v(s, p.g);
        let gm = fx_mul_s(p.g, sk1.mass);
        let fy = fx_sub_s(0, gm);
        assert(g1 =~= seq![gravity_v(sk1, p.g)]);
        assert(gravity_v(sk1, p.g) == (NodeV { ay: fy, ..sk1 }));
        let n2 = integrate_pass_v(g1, dts, p.dampen_factor);
        assert(n2 =~= seq![integrate_v((NodeV { ay: fy, ..sk1 }), dts, p.dampen_factor)]);
        // x axis: everything cancels.
        lemma_fx_add_zero(n0.x);
        lemma_fx_div_zero(n0.mass);
        lemma_fx_mul_zero(dts);
        lemma_fx_mul_zero(SCALE as int);
        lemma_fx_mul_zero(p.dampen_factor);
        // y axis: velocity carried in full, plus the increment.
        let vy = fx_sub_s(y1, y1 - km1 * dd);
        assert(vy == km1 * dd);
        lemma_fx_mul_scale(vy);
        let s1 = fx_add_s(y1, vy);
        assert(k * dd == (k - 1) * dd + dd) by (nonlinear_arith)
            requires
                k >= 1,
        ;
        assert(km1 * dd == (k - 1) * dd);
        assert(y1 + km1 * dd == yk - dd);
        assert(-FX_MAX <= y1 + km1 * dd <= FX_MAX);
        assert(s1 == yk - dd);
        assert(fx_add_s(s1, dd) == yk);
        assert(integrate_v((NodeV { ay: fy, ..sk1 }), dts, p.dampen_factor) == (NodeV {
            y: yk,
            prev_y: y1,
            ..sk1
        }));
        assert(y1 == yk - k * dd);
        assert(grav_state_v(n0, dd, k) == (NodeV { y: yk, prev_y: y1, ..sk1 }));
        // No springs: the relaxation sweeps change nothing.
        assert(relax_from_v(n2, es, 0, p.r0, p.k0, dts) == n2);
        lemma_relax_iters_fixed(n2, es, p.relax_iters as nat, p.r0, p.k0, dts);
        assert(substep_v(s, es, Option::None, p) == n2);
        assert(n2 =~= seq![grav_state_v(n0, dd, k)]);
    }
}

/// Gravity-only convergence: a single non-pinned, unconstrained particle at
/// rest, integrated with no damping (`dampen_factor` exactly one) under
/// constant gravity, falls by exactly the discrete closed form of uniformly
/// accelerated motion: after `n` ticks of `substeps` substeps each, its
/// displacement is the triangular number `tri(n * substeps)` times the fixed
/// per-substep increment, and its velocity grows linearly — provided the run
/// stays inside the fixed-point range.
pub proof fn lemma_gravity_closed_form(n0: NodeV, p: ParamsV, n: nat)
    requires
        node_wf(n0),
        !n0.pinned,
        n0.prev_x == n0.x,
        n0.prev_y == n0.y,
        n0.ax == 0,
        n0.ay == 0,
        params_wf(p),
        p.dampen_factor == SCALE,
        0 <= p.g,
        tri((n * p.substeps) as nat) * grav_delta_v(p.g, n0.mass, dt_sub_v(p)) >= -FX_MAX,
        n0.y + tri((n * p.substeps) as nat) * grav_delta_v(p.g, n0.mass, dt_sub_v(p))
            >= -FX_MAX,
    ensures
        ticks_v(seq![n0], Seq::empty(), Option::None, p, n) == seq![
            grav_state_v(n0, grav_delta_v(p.g, n0.mass, dt_sub_v(p)), (n * p.substeps) as nat),
        ],
{
    lemma_ticks_as_substeps(seq![n0], Seq::empty(), Option::None, p, n);
    lemma_gravity_substeps(n0, p, (n * p.substeps) as nat);
}

} // verus!
