//! The simulation stores: all particles, all springs, and the lattice-to-id
//! grid, plus the lattice builder and the interactive mutation operations
//! (impulse application, nearest-constraint removal, full reset).

use vstd::prelude::*;
use crate::fixed::{
    dist_s, fx_add, fx_add_s, fx_dist, fx_in_range, fx_mul, fx_mul_s, int_to_fx, int_to_fx_s,
    FX_MAX,
};
use crate::node::{node_wf, nodes_wf, views, Node, NodeV};
use crate::params::{params_wf, Params};
use crate::physics::{edge_views, edge_wf, edges_wf, Edge, EdgeV};

verus! {

/// The lattice-to-id mapping: `grid[y][x]` is the index of the node at
/// lattice coordinate `(x, y)` in the node store.
pub struct Grid(pub Vec<Vec<usize>>);

/// The whole simulation state: the particle store, the spring store, and the
/// grid, populated once by the lattice builder and mutated in place.
pub struct Simulation {
    /// All particles, indexed by id.
    pub nodes: Vec<Node>,
    /// All springs; removal is the only membership change after construction.
    pub edges: Vec<Edge>,
    /// Lattice coordinate to node id.
    pub grid: Grid,
    /// Number of lattice nodes along x.
    pub num_x: usize,
    /// Number of lattice nodes along y.
    pub num_y: usize,
}

/// The grid holds exactly the row-major node ids of a `num_x` by `num_y`
/// lattice.
pub open spec fn grid_wf(g: Grid, num_x: int, num_y: int) -> bool {
    &&& g.0@.len() == num_y
    &&& forall|y: int| 0 <= y < num_y ==> (#[trigger] g.0@[y])@.len() == num_x
    &&& forall|y: int, x: int|
        0 <= y < num_y && 0 <= x < num_x ==> (#[trigger] g.0@[y]@[x]) == y * num_x + x
}

/// The canonical rest x coordinate of lattice column `gx`: `gx * r0`.
pub open spec fn rest_x_v(gx: int, r0: int) -> int {
    fx_mul_s(int_to_fx_s(gx), r0)
}

/// The canonical rest y coordinate of lattice row `gy`: `-(gy * r0)`
/// (y grows downward in world space).
pub open spec fn rest_y_v(gy: int, r0: int) -> int {
    -fx_mul_s(int_to_fx_s(gy), r0)
}

/// The particle the lattice builder places at lattice coordinate
/// `(gx, gy)`: at its rest position, at rest, with no accumulated force,
/// pinned exactly on row zero.
pub open spec fn lattice_node_v(gx: int, gy: int, r0: int, m: int) -> NodeV {
    NodeV {
        x: rest_x_v(gx, r0),
        y: rest_y_v(gy, r0),
        prev_x: rest_x_v(gx, r0),
        prev_y: rest_y_v(gy, r0),
        ax: 0,
        ay: 0,
        mass: m,
        pinned: gy == 0,
        gx: gx,
        gy: gy,
    }
}

/// The springs the builder creates for the lattice cell with row-major id
/// `y * num_x + x`: one to the top neighbour (when `y > 0`), then one to the
/// left neighbour (when `x > 0`).
pub open spec fn cell_edges_v(num_x: int, x: int, y: int) -> Seq<EdgeV> {
    let id = y * num_x + x;
    let up: Seq<EdgeV> = if y > 0 {
        seq![EdgeV { a: id - num_x, b: id }]
    } else {
        Seq::empty()
    };
    let left: Seq<EdgeV> = if x > 0 {
        seq![EdgeV { a: id - 1, b: id }]
    } else {
        Seq::empty()
    };
    up + left
}

/// All springs of the lattice cells with row-major id below `i`, in build
/// order.
pub open spec fn lattice_edges_v(num_x: int, i: int) -> Seq<EdgeV>
    decreases i,
{
    if i <= 0 {
        Seq::empty()
    } else {
        lattice_edges_v(num_x, i - 1) + cell_edges_v(num_x, (i - 1) % num_x, (i - 1) / num_x)
    }
}

impl Simulation {
    /// Every particle and spring is well-formed, the store has lattice shape
    /// and the grid and the particles' lattice coordinates agree with it.
    pub open spec fn wf(self) -> bool {
        &&& nodes_wf(views(self.nodes@))
        &&& edges_wf(edge_views(self.edges@), self.nodes@.len() as int)
        &&& 1 <= self.num_x
        &&& 1 <= self.num_y
        &&& self.nodes@.len() == self.num_x * self.num_y
        &&& grid_wf(self.grid, self.num_x as int, self.num_y as int)
        &&& forall|i: int|
            0 <= i < self.nodes@.len() ==> (#[trigger] self.nodes@[i])@.gx == i % (
            self.num_x as int) && self.nodes@[i]@.gy == i / (self.num_x as int)
    }
}

/// Build a `num_x` by `num_y` lattice: one particle per grid point at
/// position `(x * r0, -(y * r0))`, row zero pinned, and one spring per grid
/// edge (top neighbour, then left neighbour, in row-major order).
pub fn create_lattice(num_x: usize, num_y: usize, r0: i64, m: i64) -> (sim: Simulation)
    requires
        1 <= num_x,
        1 <= num_y,
        num_x * num_y <= usize::MAX,
        0 <= r0 <= FX_MAX,
        1 <= m <= FX_MAX,
    ensures
        sim.wf(),
        sim.num_x == num_x,
        sim.num_y == num_y,
        sim.nodes@.len() == num_x * num_y,
        forall|i: int|
            0 <= i < sim.nodes@.len() ==> (#[trigger] sim.nodes@[i])@ == lattice_node_v(
                i % (num_x as int),
                i / (num_x as int),
                r0 as int,
                m as int,
            ),
        edge_views(sim.edges@) == lattice_edges_v(num_x as int, (num_x * num_y) as int),
{
    let mut nodes: Vec<Node> = Vec::new();
    let mut rows: Vec<Vec<usize>> = Vec::new();
    let mut y: usize = 0;
    while y < num_y
        invariant
            y <= num_y,
            1 <= num_x,
            1 <= num_y,
            num_x * num_y <= usize::MAX,
            0 <= r0 <= FX_MAX,
            1 <= m <= FX_MAX,
            nodes@.len() == y * num_x,
            rows@.len() == y,
            forall|yy: int| 0 <= yy < y ==> (#[trigger] rows@[yy])@.len() == num_x,
            forall|yy: int, xx: int|
                0 <= yy < y && 0 <= xx < num_x ==> (#[trigger] rows@[yy]@[xx]) == yy * num_x + xx,
            forall|i: int|
                0 <= i < nodes@.len() ==> (#[trigger] nodes@[i])@ == lattice_node_v(
                    i % (num_x as int),
                    i / (num_x as int),
                    r0 as int,
                    m as int,
                ),
        decreases num_y - y,
    {
        proof {
            assert((y + 1) * num_x <= num_y * num_x && num_y * num_x == num_x * num_y
                && (y + 1) * num_x == y * num_x + num_x) by (nonlinear_arith)
                requires
                    0 <= y < num_y,
                    1 <= num_x,
            ;
        }
        let mut row: Vec<usize> = Vec::new();
        let mut x: usize = 0;
        while x < num_x
            invariant
                x <= num_x,
                y < num_y,
                1 <= num_x,
                num_x * num_y <= usize::MAX,
                (y + 1) * num_x <= num_x * num_y,
                y * num_x + x <= num_x * num_y,
                0 <= r0 <= FX_MAX,
                1 <= m <= FX_MAX,
                nodes@.len() == y * num_x + x,
                row@.len() == x,
                forall|xx: int| 0 <= xx < x ==> (#[trigger] row@[xx]) == y * num_x + xx,
                forall|i: int|
                    0 <= i < nodes@.len() ==> (#[trigger] nodes@[i])@ == lattice_node_v(
                        i % (num_x as int),
                        i / (num_x as int),
                        r0 as int,
                        m as int,
                    ),
            decreases num_x - x,
        {
            proof {
                assert(y * num_x + x + 1 <= (y + 1) * num_x) by (nonlinear_arith)
                    requires
                        0 <= x < num_x,
                        0 <= y,
                ;
            }
            let id = nodes.len();
            let px = fx_mul(int_to_fx(x), r0);
            let py = -fx_mul(int_to_fx(y), r0);
            let nd = Node::new(x, y, px, py, m, y == 0);
            nodes.push(nd);
            row.push(id);
            proof {
                vstd::arithmetic::div_mod::lemma_fundamental_div_mod_converse(
                    id as int,
                    num_x as int,
                    y as int,
                    x as int,
                );
                assert(nd@ == lattice_node_v(x as int, y as int, r0 as int, m as int));
            }
            x += 1;
        }
        proof {
            assert((y + 1) * num_x == y * num_x + num_x) by (nonlinear_arith);
        }
        rows.push(row);
        y += 1;
    }
    proof {
        assert(num_y * num_x == num_x * num_y) by (nonlinear_arith);
    }
    let total = nodes.len();
    let grid = Grid(rows);
    let mut springs: Vec<Edge> = Vec::new();
    let mut i: usize = 0;
    while i < total
        invariant
            i <= total,
            total == num_x * num_y,
            1 <= num_x,
            1 <= num_y,
            grid_wf(grid, num_x as int, num_y as int),
            edge_views(springs@) == lattice_edges_v(num_x as int, i as int),
            edges_wf(edge_views(springs@), total as int),
        decreases total - i,
    {
        let x = i % num_x;
        let y = i / num_x;
        proof {
            vstd::arithmetic::div_mod::lemma_fundamental_div_mod(i as int, num_x as int);
            assert(num_x as int * (i as int / num_x as int) == (i as int / num_x as int) * (
            num_x as int)) by (nonlinear_arith);
            assert(i == y * num_x + x);
            assert(y < num_y) by (nonlinear_arith)
                requires
                    i < num_x * num_y,
                    i == y * num_x + x,
                    0 <= x < num_x,
                    0 <= y,
                    1 <= num_x,
            ;
            assert(y * num_x + x < num_x * num_y) by (nonlinear_arith)
                requires
                    0 <= x < num_x,
                    0 <= y < num_y,
                    1 <= num_x,
            ;
        }
        let ghost pre = edge_views(springs@);
        if y > 0 {
            let a = grid_at(&grid, y - 1, x);
            let b = grid_at(&grid, y, x);
            proof {
                assert((y - 1) * num_x + x == y * num_x + x - num_x) by (nonlinear_arith);
            }
            springs.push(Edge { a, b });
        }
        if x > 0 {
            let a = grid_at(&grid, y, x - 1);
            let b = grid_at(&grid, y, x);
            springs.push(Edge { a, b });
        }
        proof {
            assert(edge_views(springs@) =~= pre + cell_edges_v(num_x as int, x as int, y as int));
            assert(lattice_edges_v(num_x as int, i + 1) == lattice_edges_v(num_x as int, i as int)
                + cell_edges_v(num_x as int, x as int, y as int));
        }
        i += 1;
    }
    Simulation { nodes, edges: springs, grid, num_x, num_y }
}

/// Read one id of the grid.
fn grid_at(g: &Grid, y: usize, x: usize) -> (id: usize)
    requires
        y < g.0@.len(),
        x < g.0@[y as int]@.len(),
    ensures
        id == g.0@[y as int]@[x as int],
{
    let row = &g.0[y];
    row[x]
}

impl Simulation {
    /// Build the simulation of a parameter set: the full lattice, with the
    /// parameters' dimensions, rest length and default mass.
    pub fn new(params: &Params) -> (sim: Simulation)
        requires
            params_wf(params@),
            1 <= params@.num_nodes_x,
            1 <= params@.num_nodes_y,
            params@.num_nodes_x * params@.num_nodes_y <= usize::MAX,
        ensures
            sim.wf(),
            sim.num_x == params@.num_nodes_x,
            sim.num_y == params@.num_nodes_y,
            sim.nodes@.len() == params@.num_nodes_x * params@.num_nodes_y,
            forall|i: int|
                0 <= i < sim.nodes@.len() ==> (#[trigger] sim.nodes@[i])@ == lattice_node_v(
                    i % params@.num_nodes_x,
                    i / params@.num_nodes_x,
                    params@.r0,
                    params@.m,
                ),
            edge_views(sim.edges@) == lattice_edges_v(
                params@.num_nodes_x,
                params@.num_nodes_x * params@.num_nodes_y,
            ),
    {
        create_lattice(params.num_nodes_x, params.num_nodes_y, params.r0, params.m)
    }
}

/// Model of resetting one particle: position and previous position are
/// recomputed from the lattice coordinate and `r0`, discarding velocity;
/// force, mass, pin state and coordinate are untouched.
pub open spec fn reset_node_v(n: NodeV, r0: int) -> NodeV {
    NodeV {
        x: rest_x_v(n.gx, r0),
        y: rest_y_v(n.gy, r0),
        prev_x: rest_x_v(n.gx, r0),
        prev_y: rest_y_v(n.gy, r0),
        ..n
    }
}

/// Model of the reset over the whole store.
pub open spec fn reset_pass_v(s: Seq<NodeV>, r0: int) -> Seq<NodeV> {
    Seq::new(s.len(), |i: int| reset_node_v(s[i], r0))
}

/// Reset every particle to its canonical rest position, discarding velocity.
/// Springs are unaffected: topology is not restored by a reset.
pub fn reset_nodes_position(nodes: &mut Vec<Node>, params: &Params)
    requires
        nodes_wf(views(old(nodes)@)),
        params_wf(params@),
    ensures
        views(final(nodes)@) == reset_pass_v(views(old(nodes)@), params@.r0),
        nodes_wf(views(final(nodes)@)),
        final(nodes)@.len() == old(nodes)@.len(),
{
    let n = nodes.len();
    let mut i: usize = 0;
    while i < n
        invariant
            i <= n,
            n == nodes@.len(),
            nodes@.len() == old(nodes)@.len(),
            nodes_wf(views(old(nodes)@)),
            params_wf(params@),
            forall|j: int| i <= j < n ==> nodes@[j] == old(nodes)@[j],
            forall|j: int|
                0 <= j < i ==> #[trigger] nodes@[j]@ == reset_node_v(old(nodes)@[j]@, params@.r0),
        decreases n - i,
    {
        let nd = nodes[i];
        proof {
            assert(nd@ == views(old(nodes)@)[i as int]);
            assert(node_wf(nd@));
        }
        let mut nd2 = nd;
        nd2.x = fx_mul(int_to_fx(nd.gx), params.r0);
        nd2.y = -fx_mul(int_to_fx(nd.gy), params.r0);
        nd2.prev_x = nd2.x;
        nd2.prev_y = nd2.y;
        nodes[i] = nd2;
        i += 1;
    }
    proof {
        assert(views(nodes@) =~= reset_pass_v(views(old(nodes)@), params@.r0));
    }
}

/// Model of an impulse on one particle: a non-pinned particle strictly
/// within `radius` of the point gets the force added to its accumulator.
pub open spec fn impulse_node_v(n: NodeV, px: int, py: int, radius: int, fcx: int, fcy: int) -> NodeV {
    if !n.pinned && dist_s(n.x, n.y, px, py) < radius {
        NodeV { ax: fx_add_s(n.ax, fcx), ay: fx_add_s(n.ay, fcy), ..n }
    } else {
        n
    }
}

/// Model of the impulse over the whole store.
pub open spec fn impulse_pass_v(
    s: Seq<NodeV>,
    px: int,
    py: int,
    radius: int,
    fcx: int,
    fcy: int,
) -> Seq<NodeV> {
    Seq::new(s.len(), |i: int| impulse_node_v(s[i], px, py, radius, fcx, fcy))
}

/// Add `(force_x, force_y)` to the force accumulator of every non-pinned
/// particle strictly within `radius` of the point `(px, py)`. Finding no
/// particle in range is a no-op, not an error.
pub fn apply_impulse(
    nodes: &mut Vec<Node>,
    px: i64,
    py: i64,
    radius: i64,
    force_x: i64,
    force_y: i64,
)
    requires
        nodes_wf(views(old(nodes)@)),
        fx_in_range(px as int),
        fx_in_range(py as int),
        fx_in_range(radius as int),
        fx_in_range(force_x as int),
        fx_in_range(force_y as int),
    ensures
        views(final(nodes)@) == impulse_pass_v(
            views(old(nodes)@),
            px as int,
            py as int,
            radius as int,
            force_x as int,
            force_y as int,
        ),
        nodes_wf(views(final(nodes)@)),
        final(nodes)@.len() == old(nodes)@.len(),
{
    let n = nodes.len();
    let mut i: usize = 0;
    while i < n
        invariant
            i <= n,
            n == nodes@.len(),
            nodes@.len() == old(nodes)@.len(),
            nodes_wf(views(old(nodes)@)),
            fx_in_range(px as int),
            fx_in_range(py as int),
            fx_in_range(radius as int),
            fx_in_range(force_x as int),
            fx_in_range(force_y as int),
            forall|j: int| i <= j < n ==> nodes@[j] == old(nodes)@[j],
            forall|j: int|
                0 <= j < i ==> #[trigger] nodes@[j]@ == impulse_node_v(
                    old(nodes)@[j]@,
                    px as int,
                    py as int,
                    radius as int,
                    force_x as int,
                    force_y as int,
                ),
        decreases n - i,
    {
        let nd = nodes[i];
        proof {
            assert(nd@ == views(old(nodes)@)[i as int]);
            assert(node_wf(nd@));
        }
        if !nd.pinned && fx_dist(nd.x, nd.y, px, py) < radius {
            let mut nd2 = nd;
            nd2.ax = fx_add(nd.ax, force_x);
            nd2.ay = fx_add(nd.ay, force_y);
            nodes[i] = nd2;
        }
        i += 1;
    }
    proof {
        assert(views(nodes@) =~= impulse_pass_v(
            views(old(nodes)@),
            px as int,
            py as int,
            radius as int,
            force_x as int,
            force_y as int,
        ));
    }
}

/// A spring has an endpoint within `thr` of the point (bound inclusive).
pub open spec fn edge_hit_v(nodes: Seq<NodeV>, e: EdgeV, px: int, py: int, thr: int) -> bool {
    dist_s(nodes[e.a].x, nodes[e.a].y, px, py) <= thr || dist_s(
        nodes[e.b].x,
        nodes[e.b].y,
        px,
        py,
    ) <= thr
}

/// Index of the first spring at position `i` or later with an endpoint
/// within `thr` of the point, if any.
pub open spec fn first_hit_v(
    nodes: Seq<NodeV>,
    edges: Seq<EdgeV>,
    i: int,
    px: int,
    py: int,
    thr: int,
) -> Option<int>
    decreases edges.len() - i,
{
    if 0 <= i < edges.len() {
        if edge_hit_v(nodes, edges[i], px, py, thr) {
            Option::Some(i)
        } else {
            first_hit_v(nodes, edges, i + 1, px, py, thr)
        }
    } else {
        Option::None
    }
}

/// Remove the first spring with an endpoint within `threshold` of the point
/// `(px, py)`, if any, and say whether one was removed. At most one spring
/// is removed per call; finding none is a no-op, not an error.
pub fn cut_nearest(
    nodes: &Vec<Node>,
    edges: &mut Vec<Edge>,
    px: i64,
    py: i64,
    threshold: i64,
) -> (removed: bool)
    requires
        nodes_wf(views(nodes@)),
        edges_wf(edge_views(old(edges)@), nodes@.len() as int),
        fx_in_range(px as int),
        fx_in_range(py as int),
        fx_in_range(threshold as int),
    ensures
        ({
            let hit = first_hit_v(
                views(nodes@),
                edge_views(old(edges)@),
                0,
                px as int,
                py as int,
                threshold as int,
            );
            match hit {
                Option::Some(j) => removed && final(edges)@ == old(edges)@.remove(j),
                Option::None => !removed && final(edges)@ == old(edges)@,
            }
        }),
        removed <==> final(edges)@.len() == old(edges)@.len() - 1,
        !removed <==> final(edges)@ == old(edges)@,
        edges_wf(edge_views(final(edges)@), nodes@.len() as int),
{
    let ne = edges.len();
    let mut j: usize = 0;
    while j < ne
        invariant
            j <= ne,
            ne == edges@.len(),
            edges@ == old(edges)@,
            nodes_wf(views(nodes@)),
            edges_wf(edge_views(edges@), nodes@.len() as int),
            fx_in_range(px as int),
            fx_in_range(py as int),
            fx_in_range(threshold as int),
            first_hit_v(
                views(nodes@),
                edge_views(edges@),
                0,
                px as int,
                py as int,
                threshold as int,
            ) == first_hit_v(
                views(nodes@),
                edge_views(edges@),
                j as int,
                px as int,
                py as int,
                threshold as int,
            ),
        decreases ne - j,
    {
        let e = edges[j];
        proof {
            assert(e@ == edge_views(edges@)[j as int]);
            assert(edge_wf(e@, nodes@.len() as int));
            assert(nodes@[e.a as int]@ == views(nodes@)[e.a as int]);
            assert(nodes@[e.b as int]@ == views(nodes@)[e.b as int]);
            assert(node_wf(views(nodes@)[e.a as int]));
            assert(node_wf(views(nodes@)[e.b as int]));
        }
        let na = nodes[e.a];
        let nb = nodes[e.b];
        let hit_a = fx_dist(na.x, na.y, px, py) <= threshold;
        let hit_b = fx_dist(nb.x, nb.y, px, py) <= threshold;
        if hit_a || hit_b {
            let ghost pre = edges@;
            edges.remove(j);
            proof {
                assert(edge_views(edges@) =~= edge_views(pre).remove(j as int));
                assert forall|q: int| 0 <= q < edge_views(edges@).len() implies edge_wf(
                    #[trigger] edge_views(edges@)[q],
                    nodes@.len() as int,
                ) by {
                    if q < j as int {
                        assert(edge_views(edges@)[q] == edge_views(pre)[q]);
                    } else {
                        assert(edge_views(edges@)[q] == edge_views(pre)[q + 1]);
                    }
                }
            }
            return true;
        }
        j += 1;
    }
    false
}

/// A read-only snapshot of every particle position, indexed by id.
pub fn positions(nodes: &Vec<Node>) -> (ps: Vec<(i64, i64)>)
    ensures
        ps@.len() == nodes@.len(),
        forall|i: int| 0 <= i < nodes@.len() ==> (#[trigger] ps@[i]) == (nodes@[i].x, nodes@[i].y),
{
    let n = nodes.len();
    let mut ps: Vec<(i64, i64)> = Vec::new();
    let mut i: usize = 0;
    while i < n
        invariant
            i <= n,
            n == nodes@.len(),
            ps@.len() == i,
            forall|q: int| 0 <= q < i ==> (#[trigger] ps@[q]) == (nodes@[q].x, nodes@[q].y),
        decreases n - i,
    {
        let nd = nodes[i];
        ps.push((nd.x, nd.y));
        i += 1;
    }
    ps
}

/// A read-only snapshot of every spring's endpoint ids.
pub fn edges(springs: &Vec<Edge>) -> (es: Vec<(usize, usize)>)
    ensures
        es@.len() == springs@.len(),
        forall|i: int|
            0 <= i < springs@.len() ==> (#[trigger] es@[i]) == (springs@[i].a, springs@[i].b),
{
    let n = springs.len();
    let mut es: Vec<(usize, usize)> = Vec::new();
    let mut i: usize = 0;
    while i < n
        invariant
            i <= n,
            n == springs@.len(),
            es@.len() == i,
            forall|q: int| 0 <= q < i ==> (#[trigger] es@[q]) == (springs@[q].a, springs@[q].b),
        decreases n - i,
    {
        let e = springs[i];
        es.push((e.a, e.b));
        i += 1;
    }
    es
}

} // verus!
