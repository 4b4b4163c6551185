//! Implicit diffusion: fixed-iteration Gauss-Seidel relaxation toward the
//! solution of the implicit (unconditionally stable) heat-equation step.
//!
//! The diffusion amount is `a = dt * diff * n^2` and each interior cell is
//! relaxed to `(src + a * neighbours) / (1 + 4 a)`, with the boundary of the
//! given kind enforced after every pass.

use vstd::prelude::*;
use crate::fixed::{
    clamp_wide, fadd, fmul, fx_add, fx_mul, lemma_fx_mul_nonneg, sat64, FX_ONE, FX_SCALE,
};
use crate::boundary::BoundaryKind;
use crate::field::Field;
use crate::gauss::{gs_iters, gs_solve, GS_PASSES};

verus! {

/// The diffusion amount a = dt * diff * n^2, in fixed point.
pub open spec fn diff_rate(n: int, diff: i64, dt: i64) -> i64 {
    fx_mul(fx_mul(dt, diff), sat64(n * n * FX_SCALE as int))
}

/// The relaxation denominator 1 + 4 a, in fixed point.
pub open spec fn diff_den(a: i64) -> i64 {
    fx_add(FX_ONE, sat64(4 * a as int))
}

/// The diffused field: GS_PASSES Gauss-Seidel passes of the implicit
/// discretization, starting from initial guess x, with source term src.
pub open spec fn diffuse_spec(
    k: BoundaryKind,
    src: Seq<i64>,
    x: Seq<i64>,
    n: int,
    diff: i64,
    dt: i64,
) -> Seq<i64> {
    gs_iters(
        k,
        src,
        x,
        n,
        diff_rate(n, diff, dt),
        diff_den(diff_rate(n, diff, dt)),
        GS_PASSES as int,
    )
}

/// Relax x toward the diffused state of source field src, in place.
/// x's starting contents are the initial relaxation guess.
pub fn diffuse(k: BoundaryKind, x: &mut Field, src: &Field, diff: i64, dt: i64)
    requires
        old(x).wf(),
        src.wf(),
        old(x).n_int() == src.n_int(),
        diff >= 0,
        dt >= 0,
    ensures
        final(x).wf(),
        final(x).n_int() == old(x).n_int(),
        final(x)@ == diffuse_spec(k, src@, old(x)@, old(x).n_int(), diff, dt),
{
    let n: usize = x.n();
    proof {
        assert(n as int * n as int <= 1_000_000) by (nonlinear_arith)
            requires
                n <= 1000,
        ;
    }
    let nsq: i64 = (n * n) as i64;
    let nsq_fx: i64 = nsq * FX_SCALE;
    let a: i64 = fmul(fmul(dt, diff), nsq_fx);
    proof {
        lemma_fx_mul_nonneg(dt, diff);
        lemma_fx_mul_nonneg(fx_mul(dt, diff), nsq_fx);
    }
    let four_a: i64 = clamp_wide(4 * (a as i128));
    let den: i64 = fadd(FX_ONE, four_a);
    gs_solve(k, x, src, a, den, GS_PASSES);
}

/// Law: with a zero diffusion coefficient, diffusion leaves every interior
/// cell equal to the corresponding source cell, whatever the initial guess:
/// the amount a collapses to zero and every pass rewrites the interior with
/// the bare source values.
pub proof fn lemma_diffuse_conservation_zero_coefficient(
    k: BoundaryKind,
    src: Seq<i64>,
    x: Seq<i64>,
    n: int,
    dt: i64,
    i: int,
    j: int,
)
    requires
        1 <= n <= crate::field::MAX_N as int,
        src.len() == crate::field::grid_len(n),
        x.len() == crate::field::grid_len(n),
        crate::field::interior(n, i, j),
    ensures
        diffuse_spec(k, src, x, n, 0, dt)[crate::field::ix(n, i, j)] == src[crate::field::ix(
            n,
            i,
            j,
        )],
{
    crate::fixed::lemma_fx_mul_zero(dt);
    crate::fixed::lemma_fx_mul_zero(sat64(n * n * FX_SCALE as int));
    let a = diff_rate(n, 0, dt);
    assert(a == 0);
    assert(diff_den(a) == FX_ONE);
    let prev = crate::gauss::gs_iters(k, src, x, n, 0, FX_ONE, GS_PASSES as int - 1);
    crate::gauss::lemma_gs_iters_len(k, src, x, n, 0, FX_ONE, GS_PASSES as int - 1);
    crate::gauss::lemma_gs_cols_zero(src, prev, n, n, i, j);
    crate::gauss::lemma_gs_cols_len(src, prev, n, 0, FX_ONE, n);
    crate::boundary::lemma_enforce_interior(
        k,
        n,
        crate::gauss::gs_cols(src, prev, n, 0, FX_ONE, n),
        i,
        j,
    );
    assert(diffuse_spec(k, src, x, n, 0, dt) == crate::gauss::gs_iters(
        k,
        src,
        x,
        n,
        0,
        FX_ONE,
        GS_PASSES as int,
    ));
}

} // verus!
