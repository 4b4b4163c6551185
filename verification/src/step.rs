//! Step orchestration and the simulation state.
//!
//! A tick runs the velocity step (diffuse both components, project,
//! self-advect, project again) and then the density step (diffuse, then
//! advect along the just-updated velocity). The current/previous buffer
//! roles are exchanged by swaps between sub-steps, never copied.

use vstd::prelude::*;
use crate::fixed::{fx_add, fadd};
use crate::boundary::BoundaryKind;
use crate::field::{ix, zero_seq, Field, MAX_N};
use crate::diffuse::{diffuse, diffuse_spec};
use crate::advect::{advect, advect_spec};
use crate::project::{project, project_u_spec, project_v_spec};

verus! {

/// The fixed internal time constant of velocity self-advection (one
/// hundredth), deliberately decoupled from the caller's frame dt.
pub const SELF_ADVECT_DT: i64 = 10_000;

/// The velocity step. Diffuse each component with the incoming current
/// buffer as source and the incoming previous buffer as initial guess;
/// project; self-advect the projected field (it is transported field and
/// transporting velocity at once) starting from the incoming current buffer;
/// project again. Returns (u, v, u_prev, v_prev): the previous buffers end
/// up holding the projected pre-advection velocity.
pub open spec fn vel_step_spec(
    u: Seq<i64>,
    v: Seq<i64>,
    up: Seq<i64>,
    vp: Seq<i64>,
    n: int,
    visc: i64,
    dt: i64,
) -> (Seq<i64>, Seq<i64>, Seq<i64>, Seq<i64>) {
    let ud = diffuse_spec(BoundaryKind::MirrorX, u, up, n, visc, dt);
    let vd = diffuse_spec(BoundaryKind::MirrorY, v, vp, n, visc, dt);
    let upr = project_u_spec(ud, vd, n);
    let vpr = project_v_spec(ud, vd, n);
    let ua = advect_spec(BoundaryKind::MirrorX, u, upr, upr, vpr, n, SELF_ADVECT_DT);
    let va = advect_spec(BoundaryKind::MirrorY, v, vpr, upr, vpr, n, SELF_ADVECT_DT);
    (project_u_spec(ua, va, n), project_v_spec(ua, va, n), upr, vpr)
}

/// The density step. Diffuse with the incoming current buffer as source and
/// the incoming previous buffer as initial guess, then transport the
/// diffused field along (u, v), the advection target starting from the
/// incoming current buffer. Returns (d, d_prev): the previous buffer ends up
/// holding the diffused field.
pub open spec fn dens_step_spec(
    d: Seq<i64>,
    dp: Seq<i64>,
    u: Seq<i64>,
    v: Seq<i64>,
    n: int,
    diff: i64,
    dt: i64,
) -> (Seq<i64>, Seq<i64>) {
    let dd = diffuse_spec(BoundaryKind::Continuity, d, dp, n, diff, dt);
    (advect_spec(BoundaryKind::Continuity, d, dd, u, v, n, dt), dd)
}

/// One whole tick over the six buffers: velocity step, then density step
/// along the new velocity. Returns (d, d_prev, u, u_prev, v, v_prev).
pub open spec fn tick_spec(
    d: Seq<i64>,
    dp: Seq<i64>,
    u: Seq<i64>,
    up: Seq<i64>,
    v: Seq<i64>,
    vp: Seq<i64>,
    n: int,
    visc: i64,
    diff: i64,
    dt: i64,
) -> (Seq<i64>, Seq<i64>, Seq<i64>, Seq<i64>, Seq<i64>, Seq<i64>) {
    let vs = vel_step_spec(u, v, up, vp, n, visc, dt);
    let ds = dens_step_spec(d, dp, vs.0, vs.1, n, diff, dt);
    (ds.0, ds.1, vs.0, vs.2, vs.1, vs.3)
}

/// Run the velocity step in place on the four velocity buffers.
pub fn vel_step(u: &mut Field, v: &mut Field, u_prev: &mut Field, v_prev: &mut Field, visc: i64, dt: i64)
    requires
        old(u).wf(),
        old(v).wf(),
        old(u_prev).wf(),
        old(v_prev).wf(),
        old(v).n_int() == old(u).n_int(),
        old(u_prev).n_int() == old(u).n_int(),
        old(v_prev).n_int() == old(u).n_int(),
        visc >= 0,
        dt >= 0,
    ensures
        final(u).wf(),
        final(v).wf(),
        final(u_prev).wf(),
        final(v_prev).wf(),
        final(u).n_int() == old(u).n_int(),
        final(v).n_int() == old(u).n_int(),
        final(u_prev).n_int() == old(u).n_int(),
        final(v_prev).n_int() == old(u).n_int(),
        final(u)@ == vel_step_spec(old(u)@, old(v)@, old(u_prev)@, old(v_prev)@, old(u).n_int(), visc, dt).0,
        final(v)@ == vel_step_spec(old(u)@, old(v)@, old(u_prev)@, old(v_prev)@, old(u).n_int(), visc, dt).1,
        final(u_prev)@ == vel_step_spec(old(u)@, old(v)@, old(u_prev)@, old(v_prev)@, old(u).n_int(), visc, dt).2,
        final(v_prev)@ == vel_step_spec(old(u)@, old(v)@, old(u_prev)@, old(v_prev)@, old(u).n_int(), visc, dt).3,
{
    core::mem::swap(u, u_prev);
    diffuse(BoundaryKind::MirrorX, u, u_prev, visc, dt);
    core::mem::swap(v, v_prev);
    diffuse(BoundaryKind::MirrorY, v, v_prev, visc, dt);
    project(u, v);
    core::mem::swap(u, u_prev);
    core::mem::swap(v, v_prev);
    advect(BoundaryKind::MirrorX, u, u_prev, u_prev, v_prev, SELF_ADVECT_DT);
    advect(BoundaryKind::MirrorY, v, v_prev, u_prev, v_prev, SELF_ADVECT_DT);
    project(u, v);
}

/// Run the density step in place on the two density buffers, along the
/// already-updated velocity field.
pub fn dens_step(d: &mut Field, d_prev: &mut Field, u: &Field, v: &Field, diff: i64, dt: i64)
    requires
        old(d).wf(),
        old(d_prev).wf(),
        u.wf(),
        v.wf(),
        old(d_prev).n_int() == old(d).n_int(),
        u.n_int() == old(d).n_int(),
        v.n_int() == old(d).n_int(),
        diff >= 0,
        dt >= 0,
    ensures
        final(d).wf(),
        final(d_prev).wf(),
        final(d).n_int() == old(d).n_int(),
        final(d_prev).n_int() == old(d).n_int(),
        final(d)@ == dens_step_spec(old(d)@, old(d_prev)@, u@, v@, old(d).n_int(), diff, dt).0,
        final(d_prev)@ == dens_step_spec(old(d)@, old(d_prev)@, u@, v@, old(d).n_int(), diff, dt).1,
{
    core::mem::swap(d, d_prev);
    diffuse(BoundaryKind::Continuity, d, d_prev, diff, dt);
    core::mem::swap(d, d_prev);
    advect(BoundaryKind::Continuity, d, d_prev, u, v, dt);
}

/// The simulation state: three double-buffered fields (density and the two
/// velocity components) plus the startup rates.
pub struct Fluid {
    pub d: Field,
    pub d_prev: Field,
    pub u: Field,
    pub u_prev: Field,
    pub v: Field,
    pub v_prev: Field,
    pub visc: i64,
    pub diff: i64,
}

impl Fluid {
    /// Resolution of the simulation grid.
    pub open spec fn n_int(&self) -> int {
        self.d.n_int()
    }

    /// All six buffers well formed, of one resolution, with nonnegative rates.
    pub open spec fn wf(&self) -> bool {
        &&& self.d.wf()
        &&& self.d_prev.wf()
        &&& self.u.wf()
        &&& self.u_prev.wf()
        &&& self.v.wf()
        &&& self.v_prev.wf()
        &&& self.d_prev.n_int() == self.n_int()
        &&& self.u.n_int() == self.n_int()
        &&& self.u_prev.n_int() == self.n_int()
        &&& self.v.n_int() == self.n_int()
        &&& self.v_prev.n_int() == self.n_int()
        &&& self.visc >= 0
        &&& self.diff >= 0
    }

    /// A zero-initialized simulation of resolution n with viscosity visc and
    /// density diffusion rate diff.
    pub fn new(n: usize, visc: i64, diff: i64) -> (s: Fluid)
        requires
            1 <= n <= MAX_N,
            visc >= 0,
            diff >= 0,
        ensures
            s.wf(),
            s.n_int() == n,
            s.visc == visc,
            s.diff == diff,
            s.d@ == zero_seq(n as int),
            s.d_prev@ == zero_seq(n as int),
            s.u@ == zero_seq(n as int),
            s.u_prev@ == zero_seq(n as int),
            s.v@ == zero_seq(n as int),
            s.v_prev@ == zero_seq(n as int),
    {
        Fluid {
            d: Field::new(n),
            d_prev: Field::new(n),
            u: Field::new(n),
            u_prev: Field::new(n),
            v: Field::new(n),
            v_prev: Field::new(n),
            visc,
            diff,
        }
    }

    /// Add a density impulse to cell (x, y) of both the current and the
    /// previous density buffer.
    pub fn inject_density(&mut self, x: usize, y: usize, amount: i64)
        requires
            old(self).wf(),
            x <= old(self).n_int() + 1,
            y <= old(self).n_int() + 1,
        ensures
            final(self).wf(),
            final(self).n_int() == old(self).n_int(),
            final(self).visc == old(self).visc,
            final(self).diff == old(self).diff,
            final(self).d@ == old(self).d@.update(
                ix(old(self).n_int(), x as int, y as int),
                fx_add(old(self).d@[ix(old(self).n_int(), x as int, y as int)], amount),
            ),
            final(self).d_prev@ == old(self).d_prev@.update(
                ix(old(self).n_int(), x as int, y as int),
                fx_add(old(self).d_prev@[ix(old(self).n_int(), x as int, y as int)], amount),
            ),
            final(self).u@ == old(self).u@,
            final(self).u_prev@ == old(self).u_prev@,
            final(self).v@ == old(self).v@,
            final(self).v_prev@ == old(self).v_prev@,
    {
        let cur: i64 = self.d.get(x, y);
        self.d.set(x, y, fadd(cur, amount));
        let prv: i64 = self.d_prev.get(x, y);
        self.d_prev.set(x, y, fadd(prv, amount));
    }

    /// Add a velocity impulse (du, dv) to cell (x, y) of both the current
    /// and the previous velocity buffers.
    pub fn inject_velocity(&mut self, x: usize, y: usize, du: i64, dv: i64)
        requires
            old(self).wf(),
            x <= old(self).n_int() + 1,
            y <= old(self).n_int() + 1,
        ensures
            final(self).wf(),
            final(self).n_int() == old(self).n_int(),
            final(self).visc == old(self).visc,
            final(self).diff == old(self).diff,
            final(self).u@ == old(self).u@.update(
                ix(old(self).n_int(), x as int, y as int),
                fx_add(old(self).u@[ix(old(self).n_int(), x as int, y as int)], du),
            ),
            final(self).u_prev@ == old(self).u_prev@.update(
                ix(old(self).n_int(), x as int, y as int),
                fx_add(old(self).u_prev@[ix(old(self).n_int(), x as int, y as int)], du),
            ),
            final(self).v@ == old(self).v@.update(
                ix(old(self).n_int(), x as int, y as int),
                fx_add(old(self).v@[ix(old(self).n_int(), x as int, y as int)], dv),
            ),
            final(self).v_prev@ == old(self).v_prev@.update(
                ix(old(self).n_int(), x as int, y as int),
                fx_add(old(self).v_prev@[ix(old(self).n_int(), x as int, y as int)], dv),
            ),
            final(self).d@ == old(self).d@,
            final(self).d_prev@ == old(self).d_prev@,
    {
        let cu: i64 = self.u.get(x, y);
        self.u.set(x, y, fadd(cu, du));
        let pu: i64 = self.u_prev.get(x, y);
        self.u_prev.set(x, y, fadd(pu, du));
        let cv: i64 = self.v.get(x, y);
        self.v.set(x, y, fadd(cv, dv));
        let pv: i64 = self.v_prev.get(x, y);
        self.v_prev.set(x, y, fadd(pv, dv));
    }

    /// Advance the simulation one tick of length dt: velocity step, then
    /// density step, mutating all six buffers in place.
    pub fn tick(&mut self, dt: i64)
        requires
            old(self).wf(),
            dt >= 0,
        ensures
            final(self).wf(),
            final(self).n_int() == old(self).n_int(),
            final(self).visc == old(self).visc,
            final(self).diff == old(self).diff,
            final(self).d@ == tick_spec(
                old(self).d@, old(self).d_prev@, old(self).u@, old(self).u_prev@,
                old(self).v@, old(self).v_prev@, old(self).n_int(), old(self).visc,
                old(self).diff, dt,
            ).0,
            final(self).d_prev@ == tick_spec(
                old(self).d@, old(self).d_prev@, old(self).u@, old(self).u_prev@,
                old(self).v@, old(self).v_prev@, old(self).n_int(), old(self).visc,
                old(self).diff, dt,
            ).1,
            final(self).u@ == tick_spec(
                old(self).d@, old(self).d_prev@, old(self).u@, old(self).u_prev@,
                old(self).v@, old(self).v_prev@, old(self).n_int(), old(self).visc,
                old(self).diff, dt,
            ).2,
            final(self).u_prev@ == tick_spec(
                old(self).d@, old(self).d_prev@, old(self).u@, old(self).u_prev@,
                old(self).v@, old(self).v_prev@, old(self).n_int(), old(self).visc,
                old(self).diff, dt,
            ).3,
            final(self).v@ == tick_spec(
                old(self).d@, old(self).d_prev@, old(self).u@, old(self).u_prev@,
                old(self).v@, old(self).v_prev@, old(self).n_int(), old(self).visc,
                old(self).diff, dt,
            ).4,
            final(self).v_prev@ == tick_spec(
                old(self).d@, old(self).d_prev@, old(self).u@, old(self).u_prev@,
                old(self).v@, old(self).v_prev@, old(self).n_int(), old(self).visc,
                old(self).diff, dt,
            ).5,
    {
        vel_step(&mut self.u, &mut self.v, &mut self.u_prev, &mut self.v_prev, self.visc, dt);
        dens_step(&mut self.d, &mut self.d_prev, &self.u, &self.v, self.diff, dt);
    }

    /// Read the current density at cell (x, y) for rendering.
    pub fn sample_density(&self, x: usize, y: usize) -> (r: i64)
        requires
            self.wf(),
            x <= self.n_int() + 1,
            y <= self.n_int() + 1,
        ensures
            r == self.d@[ix(self.n_int(), x as int, y as int)],
    {
        self.d.get(x, y)
    }

    /// Read the current velocity at cell (x, y).
    pub fn sample_velocity(&self, x: usize, y: usize) -> (r: (i64, i64))
        requires
            self.wf(),
            x <= self.n_int() + 1,
            y <= self.n_int() + 1,
        ensures
            r.0 == self.u@[ix(self.n_int(), x as int, y as int)],
            r.1 == self.v@[ix(self.n_int(), x as int, y as int)],
    {
        (self.u.get(x, y), self.v.get(x, y))
    }

    /// The resolution.
    pub fn n(&self) -> (r: usize)
        ensures
            r == self.n_int(),
    {
        self.d.n()
    }
}

/// Law: a tick is a function of the buffers and parameters alone; two states
/// with equal buffers, equal rates and an equal time step tick to equal
/// buffers.
pub proof fn lemma_tick_deterministic(a: Fluid, b: Fluid, dt: i64)
    requires
        a.d@ == b.d@,
        a.d_prev@ == b.d_prev@,
        a.u@ == b.u@,
        a.u_prev@ == b.u_prev@,
        a.v@ == b.v@,
        a.v_prev@ == b.v_prev@,
        a.n_int() == b.n_int(),
        a.visc == b.visc,
        a.diff == b.diff,
    ensures
        tick_spec(
            a.d@, a.d_prev@, a.u@, a.u_prev@, a.v@, a.v_prev@, a.n_int(), a.visc, a.diff, dt,
        ) == tick_spec(
            b.d@, b.d_prev@, b.u@, b.u_prev@, b.v@, b.v_prev@, b.n_int(), b.visc, b.diff, dt,
        ),
{
}

} // verus!
