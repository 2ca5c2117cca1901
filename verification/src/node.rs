//! Particles of the lattice: position, previous position (the implicit
//! velocity of the Verlet form), accumulated force, mass and pin state.

use vstd::prelude::*;
use crate::fixed::{
    fx_add, fx_add_s, fx_div, fx_div_s, fx_in_range, fx_mul, fx_mul_s, fx_sub, fx_sub_s, FX_MAX,
};

verus! {

/// Mathematical model of a particle, over unbounded integers.
pub struct NodeV {
    pub x: int,
    pub y: int,
    pub prev_x: int,
    pub prev_y: int,
    pub ax: int,
    pub ay: int,
    pub mass: int,
    pub pinned: bool,
    pub gx: int,
    pub gy: int,
}

/// A point mass of the lattice.
#[derive(Clone, Copy, Debug)]
pub struct Node {
    /// Current position.
    pub x: i64,
    /// Current position.
    pub y: i64,
    /// Position one integration substep ago.
    pub prev_x: i64,
    /// Position one integration substep ago.
    pub prev_y: i64,
    /// Accumulated force, zeroed after each substep's integration.
    pub ax: i64,
    /// Accumulated force, zeroed after each substep's integration.
    pub ay: i64,
    /// Strictly positive mass, a force divisor.
    pub mass: i64,
    /// A pinned node is excluded from gravity, wind and position updates.
    pub pinned: bool,
    /// Lattice coordinate; the canonical rest position derives from it.
    pub gx: usize,
    /// Lattice coordinate; the canonical rest position derives from it.
    pub gy: usize,
}

impl View for Node {
    type V = NodeV;

    open spec fn view(&self) -> NodeV {
        NodeV {
            x: self.x as int,
            y: self.y as int,
            prev_x: self.prev_x as int,
            prev_y: self.prev_y as int,
            ax: self.ax as int,
            ay: self.ay as int,
            mass: self.mass as int,
            pinned: self.pinned,
            gx: self.gx as int,
            gy: self.gy as int,
        }
    }
}

/// Every scalar of the particle lies in the fixed-point range and the mass is
/// strictly positive.
pub open spec fn node_wf(n: NodeV) -> bool {
    &&& fx_in_range(n.x)
    &&& fx_in_range(n.y)
    &&& fx_in_range(n.prev_x)
    &&& fx_in_range(n.prev_y)
    &&& fx_in_range(n.ax)
    &&& fx_in_range(n.ay)
    &&& 1 <= n.mass <= FX_MAX
}

/// The views of a sequence of particles.
pub open spec fn views(s: Seq<Node>) -> Seq<NodeV> {
    s.map_values(|n: Node| n@)
}

/// All particles of a model sequence are well-formed.
pub open spec fn nodes_wf(s: Seq<NodeV>) -> bool {
    forall|i: int| 0 <= i < s.len() ==> node_wf(#[trigger] s[i])
}

/// Model of the gravity pass on one particle: add `(0, -g) * mass` to the
/// force accumulator of a non-pinned particle.
pub open spec fn gravity_v(n: NodeV, g: int) -> NodeV {
    if n.pinned {
        n
    } else {
        NodeV { ay: fx_sub_s(n.ay, fx_mul_s(g, n.mass)), ..n }
    }
}

/// Model of the damped-Verlet integration of one particle over one substep of
/// length `dt`:
/// `new = pos + dampen * (pos - prev) + (force / mass) * dt * dt`,
/// then the previous position becomes the old position and the force
/// accumulator is zeroed. Pinned particles are left untouched.
pub open spec fn integrate_v(n: NodeV, dt: int, dampen: int) -> NodeV {
    if n.pinned {
        n
    } else {
        let acc_x = fx_div_s(n.ax, n.mass);
        let acc_y = fx_div_s(n.ay, n.mass);
        let nx = fx_add_s(
            fx_add_s(n.x, fx_mul_s(dampen, fx_sub_s(n.x, n.prev_x))),
            fx_mul_s(fx_mul_s(acc_x, dt), dt),
        );
        let ny = fx_add_s(
            fx_add_s(n.y, fx_mul_s(dampen, fx_sub_s(n.y, n.prev_y))),
            fx_mul_s(fx_mul_s(acc_y, dt), dt),
        );
        NodeV { x: nx, y: ny, prev_x: n.x, prev_y: n.y, ax: 0, ay: 0, ..n }
    }
}

/// The gravity pass keeps a particle well-formed.
pub broadcast proof fn lemma_gravity_wf(n: NodeV, g: int)
    requires
        node_wf(n),
    ensures
        node_wf(#[trigger] gravity_v(n, g)),
{
}

/// The integration pass keeps a particle well-formed.
pub broadcast proof fn lemma_integrate_wf(n: NodeV, dt: int, dampen: int)
    requires
        node_wf(n),
    ensures
        node_wf(#[trigger] integrate_v(n, dt, dampen)),
{
}

impl Node {
    /// A fresh particle at rest: the previous position equals the position
    /// and no force is accumulated.
    pub fn new(gx: usize, gy: usize, x: i64, y: i64, mass: i64, pinned: bool) -> (n: Node)
        requires
            fx_in_range(x as int),
            fx_in_range(y as int),
            1 <= mass <= FX_MAX,
        ensures
            n@ == (NodeV {
                x: x as int,
                y: y as int,
                prev_x: x as int,
                prev_y: y as int,
                ax: 0,
                ay: 0,
                mass: mass as int,
                pinned: pinned,
                gx: gx as int,
                gy: gy as int,
            }),
            node_wf(n@),
    {
        Node { x, y, prev_x: x, prev_y: y, ax: 0, ay: 0, mass, pinned, gx, gy }
    }

    /// Damped-Verlet integration of this particle over one substep.
    pub fn update(&mut self, dt: i64, dampen: i64)
        requires
            node_wf(old(self)@),
            fx_in_range(dt as int),
            fx_in_range(dampen as int),
        ensures
            final(self)@ == integrate_v(old(self)@, dt as int, dampen as int),
            node_wf(final(self)@),
    {
        if self.pinned {
            return ;
        }
        let acc_x = fx_div(self.ax, self.mass);
        let acc_y = fx_div(self.ay, self.mass);
        let vx = fx_sub(self.x, self.prev_x);
        let vy = fx_sub(self.y, self.prev_y);
        let nx = fx_add(fx_add(self.x, fx_mul(dampen, vx)), fx_mul(fx_mul(acc_x, dt), dt));
        let ny = fx_add(fx_add(self.y, fx_mul(dampen, vy)), fx_mul(fx_mul(acc_y, dt), dt));
        self.prev_x = self.x;
        self.prev_y = self.y;
        self.x = nx;
        self.y = ny;
        self.ax = 0;
        self.ay = 0;
    }
}

} // verus!
