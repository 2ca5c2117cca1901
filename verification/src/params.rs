//! Simulation parameters, read-only to the integrator during a tick.

use vstd::prelude::*;
use crate::fixed::{
    fx_in_range, fx_mul, fx_mul_s, fx_sqrt, fx_sqrt_s, FX_MAX, SCALE,
};

verus! {

/// Mathematical model of the parameter set.
pub struct ParamsV {
    pub num_nodes_x: int,
    pub num_nodes_y: int,
    pub dt: int,
    pub m: int,
    pub g: int,
    pub mouse_force_x: int,
    pub mouse_force_y: int,
    pub r0: int,
    pub r_shear: int,
    pub r_flex: int,
    pub k0: int,
    pub dampen_factor: int,
    pub enable_wind: bool,
    pub substeps: int,
    pub relax_iters: int,
}

/// Parameters of the simulation. All scalars are fixed-point.
#[derive(Clone, Copy, Debug)]
pub struct Params {
    /// Number of lattice nodes along x.
    pub num_nodes_x: usize,
    /// Number of lattice nodes along y.
    pub num_nodes_y: usize,
    /// Duration of one fixed tick.
    pub dt: i64,
    /// Default mass of a node.
    pub m: i64,
    /// Gravity magnitude.
    pub g: i64,
    /// Force added near the pointer by an impulse.
    pub mouse_force_x: i64,
    /// Force added near the pointer by an impulse.
    pub mouse_force_y: i64,
    /// Structural spring rest length.
    pub r0: i64,
    /// Shear rest length, derived from `r0` (reserved, not evaluated).
    pub r_shear: i64,
    /// Flexion rest length, derived from `r0` (reserved, not evaluated).
    pub r_flex: i64,
    /// Structural spring stiffness.
    pub k0: i64,
    /// Velocity retention per substep, in `(0, SCALE]`.
    pub dampen_factor: i64,
    /// Whether the wind pass runs at all.
    pub enable_wind: bool,
    /// Substeps per fixed tick.
    pub substeps: usize,
    /// Relaxation iterations per substep.
    pub relax_iters: usize,
}

impl View for Params {
    type V = ParamsV;

    open spec fn view(&self) -> ParamsV {
        ParamsV {
            num_nodes_x: self.num_nodes_x as int,
            num_nodes_y: self.num_nodes_y as int,
            dt: self.dt as int,
            m: self.m as int,
            g: self.g as int,
            mouse_force_x: self.mouse_force_x as int,
            mouse_force_y: self.mouse_force_y as int,
            r0: self.r0 as int,
            r_shear: self.r_shear as int,
            r_flex: self.r_flex as int,
            k0: self.k0 as int,
            dampen_factor: self.dampen_factor as int,
            enable_wind: self.enable_wind,
            substeps: self.substeps as int,
            relax_iters: self.relax_iters as int,
        }
    }
}

/// Well-formed parameters: scalars in the fixed-point range, a strictly
/// positive mass and damping factor, and at least one substep.
pub open spec fn params_wf(p: ParamsV) -> bool {
    &&& 0 <= p.dt <= FX_MAX
    &&& 1 <= p.m <= FX_MAX
    &&& fx_in_range(p.g)
    &&& fx_in_range(p.mouse_force_x)
    &&& fx_in_range(p.mouse_force_y)
    &&& 0 <= p.r0 <= FX_MAX
    &&& fx_in_range(p.r_shear)
    &&& fx_in_range(p.r_flex)
    &&& fx_in_range(p.k0)
    &&& 1 <= p.dampen_factor <= SCALE
    &&& 1 <= p.substeps <= 65536
    &&& 0 <= p.relax_iters <= 65536
}

impl Params {
    /// Recompute the three rest lengths from the structural one: the shear
    /// length is the structural length times the square root of two (the
    /// lattice diagonal), the flexion length is double it.
    pub fn calc_rest_lengths(&mut self, structural_rest_length: i64)
        requires
            0 <= structural_rest_length <= FX_MAX,
        ensures
            final(self)@ == (ParamsV {
                r0: structural_rest_length as int,
                r_shear: fx_mul_s(structural_rest_length as int, fx_sqrt_s(2 * SCALE)),
                r_flex: fx_mul_s(structural_rest_length as int, 2 * SCALE),
                ..old(self)@
            }),
    {
        self.r0 = structural_rest_length;
        let root_two = fx_sqrt(2 * SCALE);
        self.r_shear = fx_mul(self.r0, root_two);
        self.r_flex = fx_mul(self.r0, 2 * SCALE);
    }
}

} // verus!
