//! Fixed-iteration Gauss-Seidel relaxation over the interior cells.
//!
//! Each pass sweeps the interior in order (columns of increasing x, cells of
//! increasing y within a column), relaxing every cell against the in-progress
//! state — later cells of a pass read values already updated by the same
//! pass — and then enforces the boundary. The relaxed value of a cell is
//! `(src + a * neighbours) / den`.

use vstd::prelude::*;
use crate::fixed::{fx_add, fx_div, fx_mul, fadd, fdiv, fmul};
use crate::boundary::{enforce, enforce_spec, BoundaryKind};
use crate::field::{grid_len, ix, lemma_ix_bounds, Field};

verus! {

/// Relaxation passes per kernel invocation: a fixed accuracy/cost trade-off,
/// not a convergence check.
pub const GS_PASSES: usize = 20;

/// Sum of the four neighbours of (i, j) in the in-progress state.
pub open spec fn nbr_sum(x: Seq<i64>, n: int, i: int, j: int) -> i64 {
    fx_add(
        fx_add(fx_add(x[ix(n, i - 1, j)], x[ix(n, i + 1, j)]), x[ix(n, i, j - 1)]),
        x[ix(n, i, j + 1)],
    )
}

/// One relaxed cell: (src + a * neighbours) / den.
pub open spec fn gs_cell(
    src: Seq<i64>,
    x: Seq<i64>,
    n: int,
    a: i64,
    den: i64,
    i: int,
    j: int,
) -> i64 {
    fx_div(fx_add(src[ix(n, i, j)], fx_mul(a, nbr_sum(x, n, i, j))), den)
}

/// Cells (i, 1..=j) relaxed in order, each reading the in-progress state.
pub open spec fn gs_col(
    src: Seq<i64>,
    x: Seq<i64>,
    n: int,
    a: i64,
    den: i64,
    i: int,
    j: int,
) -> Seq<i64>
    decreases j,
{
    if j <= 0 {
        x
    } else {
        let p = gs_col(src, x, n, a, den, i, j - 1);
        p.update(ix(n, i, j), gs_cell(src, p, n, a, den, i, j))
    }
}

/// Columns 1..=i relaxed in order.
pub open spec fn gs_cols(
    src: Seq<i64>,
    x: Seq<i64>,
    n: int,
    a: i64,
    den: i64,
    i: int,
) -> Seq<i64>
    decreases i,
{
    if i <= 0 {
        x
    } else {
        gs_col(src, gs_cols(src, x, n, a, den, i - 1), n, a, den, i, n)
    }
}

/// One full pass: the whole interior relaxed, then the boundary enforced.
pub open spec fn gs_pass(
    k: BoundaryKind,
    src: Seq<i64>,
    x: Seq<i64>,
    n: int,
    a: i64,
    den: i64,
) -> Seq<i64> {
    enforce_spec(k, n, gs_cols(src, x, n, a, den, n))
}

/// t full passes.
pub open spec fn gs_iters(
    k: BoundaryKind,
    src: Seq<i64>,
    x: Seq<i64>,
    n: int,
    a: i64,
    den: i64,
    t: int,
) -> Seq<i64>
    decreases t,
{
    if t <= 0 {
        x
    } else {
        gs_pass(k, src, gs_iters(k, src, x, n, a, den, t - 1), n, a, den)
    }
}

pub proof fn lemma_gs_col_len(
    src: Seq<i64>,
    x: Seq<i64>,
    n: int,
    a: i64,
    den: i64,
    i: int,
    j: int,
)
    requires
        1 <= n,
        x.len() == grid_len(n),
        1 <= i <= n,
        j <= n,
    ensures
        gs_col(src, x, n, a, den, i, j).len() == x.len(),
    decreases j,
{
    if j > 0 {
        lemma_gs_col_len(src, x, n, a, den, i, j - 1);
        lemma_ix_bounds(n, i, j);
    }
}

pub proof fn lemma_gs_cols_len(src: Seq<i64>, x: Seq<i64>, n: int, a: i64, den: i64, i: int)
    requires
        1 <= n,
        x.len() == grid_len(n),
        i <= n,
    ensures
        gs_cols(src, x, n, a, den, i).len() == x.len(),
    decreases i,
{
    if i > 0 {
        lemma_gs_cols_len(src, x, n, a, den, i - 1);
        lemma_gs_col_len(src, gs_cols(src, x, n, a, den, i - 1), n, a, den, i, n);
    }
}

pub proof fn lemma_gs_iters_len(
    k: BoundaryKind,
    src: Seq<i64>,
    x: Seq<i64>,
    n: int,
    a: i64,
    den: i64,
    t: int,
)
    requires
        1 <= n,
        x.len() == grid_len(n),
    ensures
        gs_iters(k, src, x, n, a, den, t).len() == x.len(),
    decreases t,
{
    if t > 0 {
        lemma_gs_iters_len(k, src, x, n, a, den, t - 1);
        lemma_gs_cols_len(src, gs_iters(k, src, x, n, a, den, t - 1), n, a, den, n);
    }
}

/// With coefficient zero and unit denominator, a relaxed cell is exactly its
/// source value.
pub proof fn lemma_gs_cell_zero(src: Seq<i64>, x: Seq<i64>, n: int, i: int, j: int)
    ensures
        gs_cell(src, x, n, 0, crate::fixed::FX_ONE, i, j) == src[ix(n, i, j)],
{
    crate::fixed::lemma_fx_mul_zero(nbr_sum(x, n, i, j));
    crate::fixed::lemma_fx_div_one(src[ix(n, i, j)]);
}

/// With coefficient zero, a column sweep copies the source into the swept
/// cells and leaves the rest alone.
pub proof fn lemma_gs_col_zero(
    src: Seq<i64>,
    x: Seq<i64>,
    n: int,
    i: int,
    j: int,
    px: int,
    py: int,
)
    requires
        1 <= n,
        x.len() == grid_len(n),
        1 <= i <= n,
        0 <= j <= n,
        crate::field::in_grid(n, px, py),
    ensures
        gs_col(src, x, n, 0, crate::fixed::FX_ONE, i, j)[ix(n, px, py)] == (
            if px == i && 1 <= py <= j {
                src[ix(n, px, py)]
            } else {
                x[ix(n, px, py)]
            }
        ),
    decreases j,
{
    if j > 0 {
        lemma_gs_col_zero(src, x, n, i, j - 1, px, py);
        let p = gs_col(src, x, n, 0, crate::fixed::FX_ONE, i, j - 1);
        lemma_gs_col_len(src, x, n, 0, crate::fixed::FX_ONE, i, j - 1);
        lemma_gs_cell_zero(src, p, n, i, j);
        lemma_ix_bounds(n, i, j);
        lemma_ix_bounds(n, px, py);
        crate::field::lemma_ix_inj(n, px, py, i, j);
    }
}

/// With coefficient zero, a full interior sweep copies the source into every
/// swept column and leaves the rest alone.
pub proof fn lemma_gs_cols_zero(src: Seq<i64>, x: Seq<i64>, n: int, i: int, px: int, py: int)
    requires
        1 <= n,
        x.len() == grid_len(n),
        0 <= i <= n,
        crate::field::in_grid(n, px, py),
    ensures
        gs_cols(src, x, n, 0, crate::fixed::FX_ONE, i)[ix(n, px, py)] == (
            if 1 <= px <= i && 1 <= py <= n {
                src[ix(n, px, py)]
            } else {
                x[ix(n, px, py)]
            }
        ),
    decreases i,
{
    if i > 0 {
        lemma_gs_cols_zero(src, x, n, i - 1, px, py);
        lemma_gs_cols_len(src, x, n, 0, crate::fixed::FX_ONE, i - 1);
        lemma_gs_col_zero(
            src,
            gs_cols(src, x, n, 0, crate::fixed::FX_ONE, i - 1),
            n,
            i,
            n,
            px,
            py,
        );
    }
}

/// Run `passes` Gauss-Seidel passes on x against source term src, in place.
pub fn gs_solve(k: BoundaryKind, x: &mut Field, src: &Field, a: i64, den: i64, passes: usize)
    requires
        old(x).wf(),
        src.wf(),
        old(x).n_int() == src.n_int(),
        den > 0,
    ensures
        final(x).wf(),
        final(x).n_int() == old(x).n_int(),
        final(x)@ == gs_iters(k, src@, old(x)@, old(x).n_int(), a, den, passes as int),
{
    let n: usize = x.n();
    let ghost n_i = x.n_int();
    let ghost x0 = x@;
    let mut t: usize = 0;
    while t < passes
        invariant
            x.wf(),
            x.n_int() == n_i,
            n == n_i,
            src.wf(),
            src.n_int() == n_i,
            den > 0,
            t <= passes,
            x0.len() == grid_len(n_i),
            x@ == gs_iters(k, src@, x0, n_i, a, den, t as int),
        decreases passes - t,
    {
        let ghost pass0 = x@;
        let mut i: usize = 1;
        while i <= n
            invariant
                x.wf(),
                x.n_int() == n_i,
                n == n_i,
                src.wf(),
                src.n_int() == n_i,
                den > 0,
                1 <= i <= n + 1,
                pass0.len() == grid_len(n_i),
                x@ == gs_cols(src@, pass0, n_i, a, den, i as int - 1),
            decreases n + 1 - i,
        {
            let ghost col0 = x@;
            let mut j: usize = 1;
            while j <= n
                invariant
                    x.wf(),
                    x.n_int() == n_i,
                    n == n_i,
                    src.wf(),
                    src.n_int() == n_i,
                    den > 0,
                    1 <= i <= n,
                    1 <= j <= n + 1,
                    col0 == gs_cols(src@, pass0, n_i, a, den, i as int - 1),
                    pass0.len() == grid_len(n_i),
                    x@ == gs_col(src@, col0, n_i, a, den, i as int, j as int - 1),
                decreases n + 1 - j,
            {
                let sv: i64 = src.get(i, j);
                let lv: i64 = x.get(i - 1, j);
                let rv: i64 = x.get(i + 1, j);
                let dv: i64 = x.get(i, j - 1);
                let uv: i64 = x.get(i, j + 1);
                let sum: i64 = fadd(fadd(fadd(lv, rv), dv), uv);
                let val: i64 = fdiv(fadd(sv, fmul(a, sum)), den);
                x.set(i, j, val);
                proof {
                    assert(x@ == gs_col(src@, col0, n_i, a, den, i as int, j as int));
                }
                j = j + 1;
            }
            proof {
                assert(x@ == gs_cols(src@, pass0, n_i, a, den, i as int));
            }
            i = i + 1;
        }
        enforce(k, x);
        proof {
            assert(x@ == gs_iters(k, src@, x0, n_i, a, den, t as int + 1));
        }
        t = t + 1;
    }
}

} // verus!
