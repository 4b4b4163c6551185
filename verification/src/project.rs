//! Incompressibility projection: a discrete Hodge decomposition removes the
//! divergent part of the velocity field.
//!
//! The divergence of (u, v) becomes the source of a discrete Poisson solve
//! for a pressure field, relaxed by fixed-iteration Gauss-Seidel; the
//! pressure gradient is then subtracted from the velocity. Twenty passes
//! drive the divergence toward zero without reaching it exactly.

use vstd::prelude::*;
use vstd::arithmetic::div_mod::{lemma_fundamental_div_mod, lemma_mod_bound};
use crate::fixed::{
    fadd, fdiv, fmul, fneg, fsub, fx_add, fx_div, fx_mul, fx_neg, fx_sub, FX_FOUR, FX_HALF,
    FX_ONE, FX_SCALE,
};
use crate::advect::{coord_fx, i2fx};
use crate::boundary::{enforce, enforce_spec, BoundaryKind};
use crate::field::{
    grid_len, in_grid, interior, ix, lemma_decode, lemma_ix_bounds, lemma_ix_inj, zero_seq, Field,
    MAX_N,
};
use crate::gauss::{gs_iters, gs_solve, GS_PASSES};

verus! {

/// Grid spacing h = 1 / n, in fixed point.
pub open spec fn grid_h(n: int) -> i64 {
    fx_div(FX_ONE, i2fx(n))
}

/// The grid spacing of a supported resolution is positive.
pub proof fn lemma_grid_h_pos(n: int)
    requires
        1 <= n <= MAX_N as int,
    ensures
        1 <= grid_h(n) <= FX_SCALE,
{
    let num = FX_ONE as int * FX_SCALE as int;
    let d = i2fx(n) as int;
    lemma_fundamental_div_mod(num, d);
    lemma_mod_bound(num, d);
    let q = num / d;
    let r = num % d;
    assert(1 <= q <= FX_SCALE as int) by (nonlinear_arith)
        requires
            num == d * q + r,
            0 <= r < d,
            num == 1_000_000_000_000,
            1_000_000 <= d <= 1_000_000_000,
    ;
}

/// The divergence source term at interior cell (i, j):
/// -(1/2) h (u_right - u_left + v_up - v_down).
pub open spec fn div_cell(u: Seq<i64>, v: Seq<i64>, n: int, i: int, j: int) -> i64 {
    fx_mul(
        fx_mul(fx_neg(FX_HALF), grid_h(n)),
        fx_sub(fx_add(fx_sub(u[ix(n, i + 1, j)], u[ix(n, i - 1, j)]), v[ix(n, i, j + 1)]), v[ix(
            n,
            i,
            j - 1,
        )]),
    )
}

/// The divergence field: interior from div_cell, ghost border zero.
pub open spec fn div_interior(u: Seq<i64>, v: Seq<i64>, n: int) -> Seq<i64> {
    Seq::new(
        grid_len(n) as nat,
        |t: int|
            if interior(n, t % (n + 2), t / (n + 2)) {
                div_cell(u, v, n, t % (n + 2), t / (n + 2))
            } else {
                0i64
            },
    )
}

/// The relaxed pressure: GS_PASSES Poisson passes with the enforced
/// divergence as source, from a zero initial guess, each cell relaxed to
/// (div + neighbours) / 4.
pub open spec fn pressure_spec(u: Seq<i64>, v: Seq<i64>, n: int) -> Seq<i64> {
    gs_iters(
        BoundaryKind::Continuity,
        enforce_spec(BoundaryKind::Continuity, n, div_interior(u, v, n)),
        zero_seq(n),
        n,
        FX_ONE,
        FX_FOUR,
        GS_PASSES as int,
    )
}

/// u with the x component of the pressure gradient subtracted:
/// u - (1/2)(p_right - p_left) / h.
pub open spec fn grad_u_cell(u: Seq<i64>, p: Seq<i64>, n: int, i: int, j: int) -> i64 {
    fx_sub(
        u[ix(n, i, j)],
        fx_div(fx_mul(FX_HALF, fx_sub(p[ix(n, i + 1, j)], p[ix(n, i - 1, j)])), grid_h(n)),
    )
}

/// v with the y component of the pressure gradient subtracted:
/// v - (1/2)(p_up - p_down) / h.
pub open spec fn grad_v_cell(v: Seq<i64>, p: Seq<i64>, n: int, i: int, j: int) -> i64 {
    fx_sub(
        v[ix(n, i, j)],
        fx_div(fx_mul(FX_HALF, fx_sub(p[ix(n, i, j + 1)], p[ix(n, i, j - 1)])), grid_h(n)),
    )
}

/// The whole u field with the gradient subtracted on the interior.
pub open spec fn grad_u_interior(u: Seq<i64>, p: Seq<i64>, n: int) -> Seq<i64> {
    Seq::new(
        u.len(),
        |t: int|
            if interior(n, t % (n + 2), t / (n + 2)) {
                grad_u_cell(u, p, n, t % (n + 2), t / (n + 2))
            } else {
                u[t]
            },
    )
}

/// The whole v field with the gradient subtracted on the interior.
pub open spec fn grad_v_interior(v: Seq<i64>, p: Seq<i64>, n: int) -> Seq<i64> {
    Seq::new(
        v.len(),
        |t: int|
            if interior(n, t % (n + 2), t / (n + 2)) {
                grad_v_cell(v, p, n, t % (n + 2), t / (n + 2))
            } else {
                v[t]
            },
    )
}

/// The projected u field.
pub open spec fn project_u_spec(u: Seq<i64>, v: Seq<i64>, n: int) -> Seq<i64> {
    enforce_spec(BoundaryKind::MirrorX, n, grad_u_interior(u, pressure_spec(u, v, n), n))
}

/// The projected v field.
pub open spec fn project_v_spec(u: Seq<i64>, v: Seq<i64>, n: int) -> Seq<i64> {
    enforce_spec(BoundaryKind::MirrorY, n, grad_v_interior(v, pressure_spec(u, v, n), n))
}

/// Make the velocity field (u, v) (approximately) divergence-free, in place:
/// solve the discrete Poisson equation for pressure against the field's
/// divergence, subtract the pressure gradient, and re-enforce the mirrored
/// boundaries.
pub fn project(u: &mut Field, v: &mut Field)
    requires
        old(u).wf(),
        old(v).wf(),
        old(u).n_int() == old(v).n_int(),
    ensures
        final(u).wf(),
        final(v).wf(),
        final(u).n_int() == old(u).n_int(),
        final(v).n_int() == old(v).n_int(),
        final(u)@ == project_u_spec(old(u)@, old(v)@, old(u).n_int()),
        final(v)@ == project_v_spec(old(u)@, old(v)@, old(u).n_int()),
{
    let n: usize = u.n();
    let ghost n_i = u.n_int();
    let ghost u0 = u@;
    let ghost v0 = v@;
    proof {
        lemma_grid_h_pos(n_i);
    }
    let h: i64 = fdiv(FX_ONE, coord_fx(n));
    let neg_half_h: i64 = fmul(fneg(FX_HALF), h);
    let mut dv = Field::new(n);
    proof {
        assert forall|x: int, y: int| #![trigger ix(n_i, x, y)]
            in_grid(n_i, x, y) implies dv@[ix(n_i, x, y)] == 0i64 by {
            lemma_ix_bounds(n_i, x, y);
        }
    }
    let mut i: usize = 1;
    while i <= n
        invariant
            u.wf(),
            v.wf(),
            dv.wf(),
            u.n_int() == n_i,
            v.n_int() == n_i,
            dv.n_int() == n_i,
            n == n_i,
            1 <= n <= MAX_N,
            u@ == u0,
            v@ == v0,
            1 <= i <= n + 1,
            h == grid_h(n_i),
            neg_half_h == fx_mul(fx_neg(FX_HALF), grid_h(n_i)),
            forall|x: int, y: int| #![trigger ix(n_i, x, y)]
                in_grid(n_i, x, y) ==> dv@[ix(n_i, x, y)] == (
                    if interior(n_i, x, y) && x < i {
                        div_cell(u0, v0, n_i, x, y)
                    } else {
                        0i64
                    }
                ),
        decreases n + 1 - i,
    {
        let mut j: usize = 1;
        while j <= n
            invariant
                u.wf(),
                v.wf(),
                dv.wf(),
                u.n_int() == n_i,
                v.n_int() == n_i,
                dv.n_int() == n_i,
                n == n_i,
                1 <= n <= MAX_N,
                u@ == u0,
                v@ == v0,
                1 <= i <= n,
                1 <= j <= n + 1,
                h == grid_h(n_i),
                neg_half_h == fx_mul(fx_neg(FX_HALF), grid_h(n_i)),
                forall|x: int, y: int| #![trigger ix(n_i, x, y)]
                    in_grid(n_i, x, y) ==> dv@[ix(n_i, x, y)] == (
                        if interior(n_i, x, y) && (x < i || (x == i && y < j)) {
                            div_cell(u0, v0, n_i, x, y)
                        } else {
                            0i64
                        }
                    ),
            decreases n + 1 - j,
        {
            let ur: i64 = u.get(i + 1, j);
            let ul: i64 = u.get(i - 1, j);
            let vt: i64 = v.get(i, j + 1);
            let vb: i64 = v.get(i, j - 1);
            let val: i64 = fmul(neg_half_h, fsub(fadd(fsub(ur, ul), vt), vb));
            dv.set(i, j, val);
            proof {
                assert forall|x: int, y: int| #![trigger ix(n_i, x, y)]
                    in_grid(n_i, x, y) implies dv@[ix(n_i, x, y)] == (
                    if interior(n_i, x, y) && (x < i || (x == i && y < j + 1)) {
                        div_cell(u0, v0, n_i, x, y)
                    } else {
                        0i64
                    }
                ) by {
                    lemma_ix_bounds(n_i, x, y);
                    lemma_ix_bounds(n_i, i as int, j as int);
                    lemma_ix_inj(n_i, x, y, i as int, j as int);
                }
            }
            j = j + 1;
        }
        i = i + 1;
    }
    proof {
        assert forall|t: int| 0 <= t < dv@.len() implies dv@[t] == div_interior(u0, v0, n_i)[t] by {
            lemma_decode(n_i, t);
        }
        assert(dv@ =~= div_interior(u0, v0, n_i));
    }
    enforce(BoundaryKind::Continuity, &mut dv);
    let mut p = Field::new(n);
    gs_solve(BoundaryKind::Continuity, &mut p, &dv, FX_ONE, FX_FOUR, GS_PASSES);
    let ghost pp = p@;
    proof {
        assert(pp == pressure_spec(u0, v0, n_i));
    }
    let mut i: usize = 1;
    while i <= n
        invariant
            u.wf(),
            p.wf(),
            u.n_int() == n_i,
            p.n_int() == n_i,
            n == n_i,
            1 <= n <= MAX_N,
            p@ == pp,
            1 <= i <= n + 1,
            h == grid_h(n_i),
            u@.len() == grid_len(n_i),
            u0.len() == grid_len(n_i),
            1 <= grid_h(n_i),
            forall|x: int, y: int| #![trigger ix(n_i, x, y)]
                in_grid(n_i, x, y) ==> u@[ix(n_i, x, y)] == (
                    if interior(n_i, x, y) && x < i {
                        grad_u_cell(u0, pp, n_i, x, y)
                    } else {
                        u0[ix(n_i, x, y)]
                    }
                ),
        decreases n + 1 - i,
    {
        let mut j: usize = 1;
        while j <= n
            invariant
                u.wf(),
                p.wf(),
                u.n_int() == n_i,
                p.n_int() == n_i,
                n == n_i,
                1 <= n <= MAX_N,
                p@ == pp,
                1 <= i <= n,
                1 <= j <= n + 1,
                h == grid_h(n_i),
                u@.len() == grid_len(n_i),
                u0.len() == grid_len(n_i),
                1 <= grid_h(n_i),
                forall|x: int, y: int| #![trigger ix(n_i, x, y)]
                    in_grid(n_i, x, y) ==> u@[ix(n_i, x, y)] == (
                        if interior(n_i, x, y) && (x < i || (x == i && y < j)) {
                            grad_u_cell(u0, pp, n_i, x, y)
                        } else {
                            u0[ix(n_i, x, y)]
                        }
                    ),
            decreases n + 1 - j,
        {
            let pr: i64 = p.get(i + 1, j);
            let pl: i64 = p.get(i - 1, j);
            let uc: i64 = u.get(i, j);
            let val: i64 = fsub(uc, fdiv(fmul(FX_HALF, fsub(pr, pl)), h));
            u.set(i, j, val);
            proof {
                assert forall|x: int, y: int| #![trigger ix(n_i, x, y)]
                    in_grid(n_i, x, y) implies u@[ix(n_i, x, y)] == (
                    if interior(n_i, x, y) && (x < i || (x == i && y < j + 1)) {
                        grad_u_cell(u0, pp, n_i, x, y)
                    } else {
                        u0[ix(n_i, x, y)]
                    }
                ) by {
                    lemma_ix_bounds(n_i, x, y);
                    lemma_ix_bounds(n_i, i as int, j as int);
                    lemma_ix_inj(n_i, x, y, i as int, j as int);
                }
            }
            j = j + 1;
        }
        i = i + 1;
    }
    proof {
        assert forall|t: int| 0 <= t < u@.len() implies u@[t] == grad_u_interior(u0, pp, n_i)[t] by {
            lemma_decode(n_i, t);
        }
        assert(u@ =~= grad_u_interior(u0, pp, n_i));
    }
    enforce(BoundaryKind::MirrorX, u);
    let mut i: usize = 1;
    while i <= n
        invariant
            v.wf(),
            p.wf(),
            v.n_int() == n_i,
            p.n_int() == n_i,
            n == n_i,
            1 <= n <= MAX_N,
            p@ == pp,
            1 <= i <= n + 1,
            h == grid_h(n_i),
            v@.len() == grid_len(n_i),
            v0.len() == grid_len(n_i),
            1 <= grid_h(n_i),
            forall|x: int, y: int| #![trigger ix(n_i, x, y)]
                in_grid(n_i, x, y) ==> v@[ix(n_i, x, y)] == (
                    if interior(n_i, x, y) && x < i {
                        grad_v_cell(v0, pp, n_i, x, y)
                    } else {
                        v0[ix(n_i, x, y)]
                    }
                ),
        decreases n + 1 - i,
    {
        let mut j: usize = 1;
        while j <= n
            invariant
                v.wf(),
                p.wf(),
                v.n_int() == n_i,
                p.n_int() == n_i,
                n == n_i,
                1 <= n <= MAX_N,
                p@ == pp,
                1 <= i <= n,
                1 <= j <= n + 1,
                h == grid_h(n_i),
                v@.len() == grid_len(n_i),
                v0.len() == grid_len(n_i),
                1 <= grid_h(n_i),
                forall|x: int, y: int| #![trigger ix(n_i, x, y)]
                    in_grid(n_i, x, y) ==> v@[ix(n_i, x, y)] == (
                        if interior(n_i, x, y) && (x < i || (x == i && y < j)) {
                            grad_v_cell(v0, pp, n_i, x, y)
                        } else {
                            v0[ix(n_i, x, y)]
                        }
                    ),
            decreases n + 1 - j,
        {
            let pt: i64 = p.get(i, j + 1);
            let pb: i64 = p.get(i, j - 1);
            let vc: i64 = v.get(i, j);
            let val: i64 = fsub(vc, fdiv(fmul(FX_HALF, fsub(pt, pb)), h));
            v.set(i, j, val);
            proof {
                assert forall|x: int, y: int| #![trigger ix(n_i, x, y)]
                    in_grid(n_i, x, y) implies v@[ix(n_i, x, y)] == (
                    if interior(n_i, x, y) && (x < i || (x == i && y < j + 1)) {
                        grad_v_cell(v0, pp, n_i, x, y)
                    } else {
                        v0[ix(n_i, x, y)]
                    }
                ) by {
                    lemma_ix_bounds(n_i, x, y);
                    lemma_ix_bounds(n_i, i as int, j as int);
                    lemma_ix_inj(n_i, x, y, i as int, j as int);
                }
            }
            j = j + 1;
        }
        i = i + 1;
    }
    proof {
        assert forall|t: int| 0 <= t < v@.len() implies v@[t] == grad_v_interior(v0, pp, n_i)[t] by {
            lemma_decode(n_i, t);
        }
        assert(v@ =~= grad_v_interior(v0, pp, n_i));
    }
    enforce(BoundaryKind::MirrorY, v);
}

} // verus!
