//! The integrator: gravity and wind force accumulation, damped-Verlet
//! position integration, and iterative spring-tension relaxation, with an
//! exact functional model of every pass.
//!
//! A fixed tick runs `substeps` inner iterations; each executes, in strict
//! order: the gravity pass, the wind pass (only when wind is enabled), the
//! position integration, and `relax_iters` relaxation sweeps over all
//! springs. Relaxation sweeps see each other's updated positions.

use vstd::prelude::*;
use crate::fixed::{
    dist_s, div_down, fx_add, fx_add_s, fx_dist, fx_div, fx_div_int, fx_div_s, fx_half,
    fx_half_s, fx_in_range, fx_mul, fx_mul_s, fx_sub, fx_sub_s, FX_MAX,
};
use crate::node::{
    gravity_v, integrate_v, node_wf, nodes_wf, views, Node, NodeV,
};
use crate::params::{params_wf, Params, ParamsV};

verus! {

/// Mathematical model of a spring.
pub struct EdgeV {
    pub a: int,
    pub b: int,
}

/// A structural spring: the indices of its two (distinct) endpoint nodes.
#[derive(Clone, Copy, Debug)]
pub struct Edge {
    /// Index of the first endpoint in the node store.
    pub a: usize,
    /// Index of the second endpoint in the node store.
    pub b: usize,
}

impl View for Edge {
    type V = EdgeV;

    open spec fn view(&self) -> EdgeV {
        EdgeV { a: self.a as int, b: self.b as int }
    }
}

/// The views of a sequence of springs.
pub open spec fn edge_views(s: Seq<Edge>) -> Seq<EdgeV> {
    Seq::new(s.len(), |i: int| s[i]@)
}

/// A spring's endpoints exist in a store of `n` nodes and are distinct.
pub open spec fn edge_wf(e: EdgeV, n: int) -> bool {
    0 <= e.a < n && 0 <= e.b < n && e.a != e.b
}

/// All springs of a model sequence are well-formed.
pub open spec fn edges_wf(es: Seq<EdgeV>, n: int) -> bool {
    forall|i: int| 0 <= i < es.len() ==> edge_wf(#[trigger] es[i], n)
}

/// Mathematical model of the wind zone.
pub struct WindV {
    pub min_x: int,
    pub min_y: int,
    pub max_x: int,
    pub max_y: int,
    pub force_x: int,
    pub force_y: int,
}

/// A moving rectangular force zone. Each tick it translates along x by
/// `force_x * dt` and wraps modulo the simulation width; during the wind pass
/// it adds its force to every non-pinned node inside the rectangle.
#[derive(Clone, Copy, Debug)]
pub struct WindWave {
    /// Left edge of the rectangle.
    pub min_x: i64,
    /// Bottom edge of the rectangle.
    pub min_y: i64,
    /// Right edge of the rectangle.
    pub max_x: i64,
    /// Top edge of the rectangle.
    pub max_y: i64,
    /// Force added to each node inside the rectangle.
    pub force_x: i64,
    /// Force added to each node inside the rectangle.
    pub force_y: i64,
}

impl View for WindWave {
    type V = WindV;

    open spec fn view(&self) -> WindV {
        WindV {
            min_x: self.min_x as int,
            min_y: self.min_y as int,
            max_x: self.max_x as int,
            max_y: self.max_y as int,
            force_x: self.force_x as int,
            force_y: self.force_y as int,
        }
    }
}

/// All scalars of the wind zone lie in the fixed-point range.
pub open spec fn wind_wf(w: WindV) -> bool {
    &&& fx_in_range(w.min_x)
    &&& fx_in_range(w.min_y)
    &&& fx_in_range(w.max_x)
    &&& fx_in_range(w.max_y)
    &&& fx_in_range(w.force_x)
    &&& fx_in_range(w.force_y)
}

/// Model of the wind pass on one particle: a non-pinned particle inside the
/// rectangle (bounds inclusive) gets the wave's force added.
pub open spec fn wind_node_v(n: NodeV, w: WindV) -> NodeV {
    if !n.pinned && w.min_x <= n.x <= w.max_x && w.min_y <= n.y <= w.max_y {
        NodeV { ax: fx_add_s(n.ax, w.force_x), ay: fx_add_s(n.ay, w.force_y), ..n }
    } else {
        n
    }
}

/// Model of advancing the wind zone by `dt`: translate along x by
/// `force_x * dt`; once the left edge passes the simulation width, wrap by
/// subtracting the width from both x bounds.
pub open spec fn advance_v(w: WindV, dt: int, width: int) -> WindV {
    let shift = fx_mul_s(w.force_x, dt);
    let mnx = fx_add_s(w.min_x, shift);
    let mxx = fx_add_s(w.max_x, shift);
    if mnx >= width {
        WindV { min_x: fx_sub_s(mnx, width), max_x: fx_sub_s(mxx, width), ..w }
    } else {
        WindV { min_x: mnx, max_x: mxx, ..w }
    }
}

/// Model of the position correction a relaxation sweep applies to one
/// endpoint: `((u * f) / mass) * dt * dt / 2`, where `u` is one coordinate of
/// the unit vector between the endpoints and `f` the spring force.
pub open spec fn relax_delta_v(u: int, f: int, m: int, dt: int) -> int {
    fx_mul_s(fx_mul_s(fx_half_s(fx_div_s(fx_mul_s(u, f), m)), dt), dt)
}

/// Model of one relaxation of one spring: measure the distance between the
/// endpoints; on degenerate geometry (`distance == 0`) do nothing; otherwise
/// push each non-pinned endpoint along the connecting line by its
/// mass-weighted share of the tension `r0 - distance`.
pub open spec fn relax_pair_v(a: NodeV, b: NodeV, r0: int, k0: int, dt: int) -> (NodeV, NodeV) {
    let dist = dist_s(a.x, a.y, b.x, b.y);
    if dist == 0 {
        (a, b)
    } else {
        let tension = fx_sub_s(r0, dist);
        let f = -fx_mul_s(k0, tension);
        let ux = fx_div_s(fx_sub_s(a.x, b.x), dist);
        let uy = fx_div_s(fx_sub_s(a.y, b.y), dist);
        let a2 = if a.pinned {
            a
        } else {
            NodeV {
                x: fx_sub_s(a.x, relax_delta_v(ux, f, a.mass, dt)),
                y: fx_sub_s(a.y, relax_delta_v(uy, f, a.mass, dt)),
                ..a
            }
        };
        let b2 = if b.pinned {
            b
        } else {
            NodeV {
                x: fx_add_s(b.x, relax_delta_v(ux, f, b.mass, dt)),
                y: fx_add_s(b.y, relax_delta_v(uy, f, b.mass, dt)),
                ..b
            }
        };
        (a2, b2)
    }
}

/// Model of relaxing one spring within the node store.
pub open spec fn relax_edge_v(nodes: Seq<NodeV>, e: EdgeV, r0: int, k0: int, dt: int) -> Seq<
    NodeV,
> {
    if 0 <= e.a < nodes.len() && 0 <= e.b < nodes.len() && e.a != e.b {
        let p = relax_pair_v(nodes[e.a], nodes[e.b], r0, k0, dt);
        nodes.update(e.a, p.0).update(e.b, p.1)
    } else {
        nodes
    }
}

/// Model of one relaxation sweep, from spring `i` on: springs are relaxed in
/// order, each seeing the updates of the ones before it.
pub open spec fn relax_from_v(
    nodes: Seq<NodeV>,
    edges: Seq<EdgeV>,
    i: int,
    r0: int,
    k0: int,
    dt: int,
) -> Seq<NodeV>
    decreases edges.len() - i,
{
    if 0 <= i < edges.len() {
        relax_from_v(relax_edge_v(nodes, edges[i], r0, k0, dt), edges, i + 1, r0, k0, dt)
    } else {
        nodes
    }
}

/// Model of `k` full relaxation sweeps in sequence.
pub open spec fn relax_iters_v(
    nodes: Seq<NodeV>,
    edges: Seq<EdgeV>,
    k: nat,
    r0: int,
    k0: int,
    dt: int,
) -> Seq<NodeV>
    decreases k,
{
    if k == 0 {
        nodes
    } else {
        relax_iters_v(relax_from_v(nodes, edges, 0, r0, k0, dt), edges, (k - 1) as nat, r0, k0, dt)
    }
}

/// Model of the gravity pass over the whole store.
pub open spec fn gravity_pass_v(s: Seq<NodeV>, g: int) -> Seq<NodeV> {
    Seq::new(s.len(), |i: int| gravity_v(s[i], g))
}

/// Model of the wind pass over the whole store.
pub open spec fn wind_pass_v(s: Seq<NodeV>, w: WindV) -> Seq<NodeV> {
    Seq::new(s.len(), |i: int| wind_node_v(s[i], w))
}

/// Model of the integration pass over the whole store.
pub open spec fn integrate_pass_v(s: Seq<NodeV>, dt: int, dampen: int) -> Seq<NodeV> {
    Seq::new(s.len(), |i: int| integrate_v(s[i], dt, dampen))
}

/// Duration of one substep: the tick duration divided by the substep count.
pub open spec fn dt_sub_v(p: ParamsV) -> int {
    div_down(p.dt, p.substeps)
}

/// Model of one inner iteration: gravity, wind (if a zone is given),
/// integration, then `relax_iters` relaxation sweeps, in strict order.
pub open spec fn substep_v(
    nodes: Seq<NodeV>,
    edges: Seq<EdgeV>,
    w: Option<WindV>,
    p: ParamsV,
) -> Seq<NodeV> {
    let n1 = gravity_pass_v(nodes, p.g);
    let n2 = match w {
        Option::Some(wv) => wind_pass_v(n1, wv),
        Option::None => n1,
    };
    let n3 = integrate_pass_v(n2, dt_sub_v(p), p.dampen_factor);
    relax_iters_v(n3, edges, p.relax_iters as nat, p.r0, p.k0, dt_sub_v(p))
}

/// Model of `k` inner iterations in sequence.
pub open spec fn substeps_v(
    nodes: Seq<NodeV>,
    edges: Seq<EdgeV>,
    w: Option<WindV>,
    p: ParamsV,
    k: nat,
) -> Seq<NodeV>
    decreases k,
{
    if k == 0 {
        nodes
    } else {
        substeps_v(substep_v(nodes, edges, w, p), edges, w, p, (k - 1) as nat)
    }
}

/// Model of one fixed tick: `substeps` inner iterations, with the wind zone
/// (already advanced for this tick, when enabled) held constant throughout.
pub open spec fn tick_v(
    nodes: Seq<NodeV>,
    edges: Seq<EdgeV>,
    w: Option<WindV>,
    p: ParamsV,
) -> Seq<NodeV> {
    substeps_v(nodes, edges, w, p, p.substeps as nat)
}

/// Model of `n` fixed ticks in sequence, with the same parameters and the
/// same optional wind zone each tick.
pub open spec fn ticks_v(
    nodes: Seq<NodeV>,
    edges: Seq<EdgeV>,
    w: Option<WindV>,
    p: ParamsV,
    n: nat,
) -> Seq<NodeV>
    decreases n,
{
    if n == 0 {
        nodes
    } else {
        ticks_v(tick_v(nodes, edges, w, p), edges, w, p, (n - 1) as nat)
    }
}

/// The view of an optional wind zone.
pub open spec fn wind_opt_v(w: Option<&WindWave>) -> Option<WindV> {
    match w {
        Option::Some(x) => Option::Some(x@),
        Option::None => Option::None,
    }
}

/// An optional wind zone is well-formed.
pub open spec fn wind_opt_wf(w: Option<&WindWave>) -> bool {
    match w {
        Option::Some(x) => wind_wf(x@),
        Option::None => true,
    }
}

impl WindWave {
    /// Advance the wind zone by `dt`, wrapping once the left edge passes the
    /// simulation width.
    pub fn advance(&mut self, dt: i64, width: i64)
        requires
            wind_wf(old(self)@),
            fx_in_range(dt as int),
            fx_in_range(width as int),
        ensures
            final(self)@ == advance_v(old(self)@, dt as int, width as int),
            wind_wf(final(self)@),
    {
        let shift = fx_mul(self.force_x, dt);
        self.min_x = fx_add(self.min_x, shift);
        self.max_x = fx_add(self.max_x, shift);
        if self.min_x >= width {
            self.min_x = fx_sub(self.min_x, width);
            self.max_x = fx_sub(self.max_x, width);
        }
    }
}

/// Gravity pass: add `(0, -g) * mass` to the force accumulator of every
/// non-pinned node.
pub fn apply_gravity(nodes: &mut Vec<Node>, g: i64)
    requires
        nodes_wf(views(old(nodes)@)),
        fx_in_range(g as int),
    ensures
        views(final(nodes)@) == gravity_pass_v(views(old(nodes)@), g as int),
        nodes_wf(views(final(nodes)@)),
        final(nodes)@.len() == old(nodes)@.len(),
{
    let n = nodes.len();
    let mut i: usize = 0;
    while i < n
        invariant
            i <= n,
            n == nodes@.len(),
            nodes@.len() == old(nodes)@.len(),
            nodes_wf(views(old(nodes)@)),
            fx_in_range(g as int),
            forall|j: int| i <= j < n ==> nodes@[j] == old(nodes)@[j],
            forall|j: int|
                0 <= j < i ==> #[trigger] nodes@[j]@ == gravity_v(old(nodes)@[j]@, g as int),
        decreases n - i,
    {
        let nd = nodes[i];
        proof {
            assert(nd@ == views(old(nodes)@)[i as int]);
            assert(node_wf(nd@));
        }
        if !nd.pinned {
            let mut nd2 = nd;
            nd2.ay = fx_sub(nd.ay, fx_mul(g, nd.mass));
            nodes[i] = nd2;
        }
        i += 1;
    }
    proof {
        assert(views(nodes@) =~= gravity_pass_v(views(old(nodes)@), g as int));
    }
}

/// Integration pass: damped-Verlet update of every node.
pub fn update_nodes(nodes: &mut Vec<Node>, dt: i64, dampen: i64)
    requires
        nodes_wf(views(old(nodes)@)),
        fx_in_range(dt as int),
        fx_in_range(dampen as int),
    ensures
        views(final(nodes)@) == integrate_pass_v(views(old(nodes)@), dt as int, dampen as int),
        nodes_wf(views(final(nodes)@)),
        final(nodes)@.len() == old(nodes)@.len(),
{
    let n = nodes.len();
    let mut i: usize = 0;
    while i < n
        invariant
            i <= n,
            n == nodes@.len(),
            nodes@.len() == old(nodes)@.len(),
            nodes_wf(views(old(nodes)@)),
            fx_in_range(dt as int),
            fx_in_range(dampen as int),
            forall|j: int| i <= j < n ==> nodes@[j] == old(nodes)@[j],
            forall|j: int|
                0 <= j < i ==> #[trigger] nodes@[j]@ == integrate_v(
                    old(nodes)@[j]@,
                    dt as int,
                    dampen as int,
                ),
        decreases n - i,
    {
        let mut nd = nodes[i];
        proof {
            assert(nd@ == views(old(nodes)@)[i as int]);
            assert(node_wf(nd@));
        }
        nd.update(dt, dampen);
        nodes[i] = nd;
        i += 1;
    }
    proof {
        assert(views(nodes@) =~= integrate_pass_v(views(old(nodes)@), dt as int, dampen as int));
    }
}

/// Wind pass: add the wave's force to the accumulator of every non-pinned
/// node whose position lies inside the wave's rectangle (bounds inclusive).
pub fn apply_wind(nodes: &mut Vec<Node>, wave: &WindWave)
    requires
        nodes_wf(views(old(nodes)@)),
        wind_wf(wave@),
    ensures
        views(final(nodes)@) == wind_pass_v(views(old(nodes)@), wave@),
        nodes_wf(views(final(nodes)@)),
        final(nodes)@.len() == old(nodes)@.len(),
{
    let n = nodes.len();
    let mut i: usize = 0;
    while i < n
        invariant
            i <= n,
            n == nodes@.len(),
            nodes@.len() == old(nodes)@.len(),
            nodes_wf(views(old(nodes)@)),
            wind_wf(wave@),
            forall|j: int| i <= j < n ==> nodes@[j] == old(nodes)@[j],
            forall|j: int|
                0 <= j < i ==> #[trigger] nodes@[j]@ == wind_node_v(old(nodes)@[j]@, wave@),
        decreases n - i,
    {
        let nd = nodes[i];
        proof {
            assert(nd@ == views(old(nodes)@)[i as int]);
            assert(node_wf(nd@));
        }
        if !nd.pinned && nd.x >= wave.min_x && nd.x <= wave.max_x && nd.y >= wave.min_y && nd.y
            <= wave.max_y {
            let mut nd2 = nd;
            nd2.ax = fx_add(nd.ax, wave.force_x);
            nd2.ay = fx_add(nd.ay, wave.force_y);
            nodes[i] = nd2;
        }
        i += 1;
    }
    proof {
        assert(views(nodes@) =~= wind_pass_v(views(old(nodes)@), wave@));
    }
}

/// Position correction one relaxation applies to one endpoint coordinate.
fn relax_delta(u: i64, f: i64, m: i64, dt: i64) -> (r: i64)
    requires
        fx_in_range(u as int),
        fx_in_range(f as int),
        1 <= m <= FX_MAX,
        fx_in_range(dt as int),
    ensures
        r == relax_delta_v(u as int, f as int, m as int, dt as int),
        fx_in_range(r as int),
{
    fx_mul(fx_mul(fx_half(fx_div(fx_mul(u, f), m)), dt), dt)
}

/// One relaxation sweep over all springs, in order: each spring pushes its
/// non-pinned endpoints toward the rest length `r0`, and later springs see
/// the positions already corrected by earlier ones.
pub fn apply_spring_forces(nodes: &mut Vec<Node>, edges: &Vec<Edge>, r0: i64, k0: i64, dt: i64)
    requires
        nodes_wf(views(old(nodes)@)),
        edges_wf(edge_views(edges@), old(nodes)@.len() as int),
        fx_in_range(r0 as int),
        fx_in_range(k0 as int),
        fx_in_range(dt as int),
    ensures
        views(final(nodes)@) == relax_from_v(
            views(old(nodes)@),
            edge_views(edges@),
            0,
            r0 as int,
            k0 as int,
            dt as int,
        ),
        nodes_wf(views(final(nodes)@)),
        final(nodes)@.len() == old(nodes)@.len(),
{
    let ne = edges.len();
    let mut j: usize = 0;
    while j < ne
        invariant
            j <= ne,
            ne == edges@.len(),
            nodes@.len() == old(nodes)@.len(),
            edges_wf(edge_views(edges@), nodes@.len() as int),
            nodes_wf(views(nodes@)),
            fx_in_range(r0 as int),
            fx_in_range(k0 as int),
            fx_in_range(dt as int),
            relax_from_v(
                views(nodes@),
                edge_views(edges@),
                j as int,
                r0 as int,
                k0 as int,
                dt as int,
            ) == relax_from_v(
                views(old(nodes)@),
                edge_views(edges@),
                0,
                r0 as int,
                k0 as int,
                dt as int,
            ),
        decreases ne - j,
    {
        let ghost pre = views(nodes@);
        let e = edges[j];
        proof {
            assert(e@ == edge_views(edges@)[j as int]);
            assert(edge_wf(e@, nodes@.len() as int));
        }
        let na = nodes[e.a];
        let nb = nodes[e.b];
        proof {
            assert(na@ == pre[e.a as int] && node_wf(na@));
            assert(nb@ == pre[e.b as int] && node_wf(nb@));
        }
        let dist = fx_dist(na.x, na.y, nb.x, nb.y);
        if dist != 0 {
            let tension = fx_sub(r0, dist);
            let f = -fx_mul(k0, tension);
            let ux = fx_div(fx_sub(na.x, nb.x), dist);
            let uy = fx_div(fx_sub(na.y, nb.y), dist);
            if !na.pinned {
                let mut na2 = na;
                na2.x = fx_sub(na.x, relax_delta(ux, f, na.mass, dt));
                na2.y = fx_sub(na.y, relax_delta(uy, f, na.mass, dt));
                nodes[e.a] = na2;
            }
            if !nb.pinned {
                let mut nb2 = nb;
                nb2.x = fx_add(nb.x, relax_delta(ux, f, nb.mass, dt));
                nb2.y = fx_add(nb.y, relax_delta(uy, f, nb.mass, dt));
                nodes[e.b] = nb2;
            }
        }
        proof {
            assert(views(nodes@) =~= relax_edge_v(pre, e@, r0 as int, k0 as int, dt as int));
            assert(nodes_wf(views(nodes@))) by {
                assert forall|q: int| 0 <= q < views(nodes@).len() implies node_wf(
                    #[trigger] views(nodes@)[q],
                ) by {
                    if q != e.a as int && q != e.b as int {
                        assert(views(nodes@)[q] == pre[q]);
                    }
                }
            }
        }
        j += 1;
    }
    proof {
        assert(views(nodes@) =~= relax_from_v(
            views(nodes@),
            edge_views(edges@),
            ne as int,
            r0 as int,
            k0 as int,
            dt as int,
        ));
    }
}

/// Advance the simulation by one fixed tick: `substeps` inner iterations,
/// each running gravity, the wind pass (when a zone is given), damped-Verlet
/// integration, and `relax_iters` relaxation sweeps, in strict order.
pub fn physics_update(
    nodes: &mut Vec<Node>,
    edges: &Vec<Edge>,
    wind: Option<&WindWave>,
    params: &Params,
)
    requires
        nodes_wf(views(old(nodes)@)),
        edges_wf(edge_views(edges@), old(nodes)@.len() as int),
        params_wf(params@),
        wind_opt_wf(wind),
    ensures
        views(final(nodes)@) == tick_v(
            views(old(nodes)@),
            edge_views(edges@),
            wind_opt_v(wind),
            params@,
        ),
        nodes_wf(views(final(nodes)@)),
        final(nodes)@.len() == old(nodes)@.len(),
{
    let ghost wv = wind_opt_v(wind);
    let steps = params.substeps;
    let dt_sub = fx_div_int(params.dt, params.substeps as i64);
    let mut k: usize = 0;
    while k < steps
        invariant
            k <= steps,
            steps == params@.substeps,
            nodes@.len() == old(nodes)@.len(),
            nodes_wf(views(nodes@)),
            edges_wf(edge_views(edges@), nodes@.len() as int),
            params_wf(params@),
            wind_opt_wf(wind),
            wv == wind_opt_v(wind),
            dt_sub == dt_sub_v(params@),
            fx_in_range(dt_sub as int),
            substeps_v(views(nodes@), edge_views(edges@), wv, params@, (steps - k) as nat)
                == substeps_v(
                views(old(nodes)@),
                edge_views(edges@),
                wv,
                params@,
                steps as nat,
            ),
        decreases steps - k,
    {
        let ghost pre = views(nodes@);
        apply_gravity(nodes, params.g);
        match wind {
            Option::Some(w) => apply_wind(nodes, w),
            Option::None => {},
        }
        let ghost after_forces = views(nodes@);
        proof {
            assert(after_forces == match wv {
                Option::Some(z) => wind_pass_v(gravity_pass_v(pre, params@.g), z),
                Option::None => gravity_pass_v(pre, params@.g),
            });
        }
        update_nodes(nodes, dt_sub, params.dampen_factor);
        let ghost after_int = views(nodes@);
        let iters = params.relax_iters;
        let mut rx: usize = 0;
        while rx < iters
            invariant
                rx <= iters,
                iters == params@.relax_iters,
                nodes@.len() == old(nodes)@.len(),
                nodes_wf(views(nodes@)),
                edges_wf(edge_views(edges@), nodes@.len() as int),
                params_wf(params@),
                fx_in_range(dt_sub as int),
                relax_iters_v(
                    views(nodes@),
                    edge_views(edges@),
                    (iters - rx) as nat,
                    params@.r0,
                    params@.k0,
                    dt_sub as int,
                ) == relax_iters_v(
                    after_int,
                    edge_views(edges@),
                    iters as nat,
                    params@.r0,
                    params@.k0,
                    dt_sub as int,
                ),
            decreases iters - rx,
        {
            apply_spring_forces(nodes, edges, params.r0, params.k0, dt_sub);
            rx += 1;
        }
        proof {
            assert(views(nodes@) == substep_v(pre, edge_views(edges@), wv, params@));
            assert(substeps_v(pre, edge_views(edges@), wv, params@, (steps - k) as nat)
                == substeps_v(
                views(nodes@),
                edge_views(edges@),
                wv,
                params@,
                (steps - k - 1) as nat,
            ));
        }
        k += 1;
    }
}

/// Advance one fixed tick with an interactive wind zone: when wind is
/// enabled, the zone first advances by the tick duration and the inner
/// iterations then apply its force; when disabled, the zone is untouched and
/// the wind pass is skipped entirely.
pub fn step(
    nodes: &mut Vec<Node>,
    edges: &Vec<Edge>,
    wave: &mut WindWave,
    params: &Params,
    width: i64,
)
    requires
        nodes_wf(views(old(nodes)@)),
        edges_wf(edge_views(edges@), old(nodes)@.len() as int),
        params_wf(params@),
        wind_wf(old(wave)@),
        fx_in_range(width as int),
    ensures
        params@.enable_wind ==> final(wave)@ == advance_v(old(wave)@, params@.dt, width as int),
        !params@.enable_wind ==> *final(wave) == *old(wave),
        views(final(nodes)@) == tick_v(
            views(old(nodes)@),
            edge_views(edges@),
            if params@.enable_wind {
                Option::Some(final(wave)@)
            } else {
                Option::None
            },
            params@,
        ),
        nodes_wf(views(final(nodes)@)),
        final(nodes)@.len() == old(nodes)@.len(),
        wind_wf(final(wave)@),
{
    if params.enable_wind {
        wave.advance(params.dt, width);
        let advanced: WindWave = *wave;
        physics_update(nodes, edges, Option::Some(&advanced), params);
    } else {
        physics_update(nodes, edges, Option::None, params);
    }
}

} // verus!
