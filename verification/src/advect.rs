//! Semi-Lagrangian advection: each interior cell traces backward along the
//! velocity field, clamps the landing point to the valid bilinear stencil,
//! and resamples the source field with bilinear weights. The boundary of the
//! given kind is enforced once after the full interior pass.

use vstd::prelude::*;
use vstd::arithmetic::div_mod::{lemma_fundamental_div_mod, lemma_mod_bound};
use crate::fixed::{
    fadd, fmul, fsub, fx_add, fx_mul, fx_sub, sat64, tdiv, FX_HALF, FX_ONE, FX_SCALE,
};
use crate::boundary::{enforce, enforce_spec, BoundaryKind};
use crate::field::{
    grid_len, in_grid, interior, ix, lemma_decode, lemma_ix_bounds, lemma_ix_inj, Field, MAX_N,
};

verus! {

/// The fixed-point value of integer grid coordinate c.
pub open spec fn i2fx(c: int) -> i64 {
    sat64(c * FX_SCALE as int)
}

/// Clamp a backtraced coordinate into [1/2, n + 1/2], the range on which the
/// four surrounding sample cells exist.
pub open spec fn clamp_coord(c: i64, n: int) -> i64 {
    let hi = sat64(n * FX_SCALE as int + FX_HALF as int);
    if c < FX_HALF {
        FX_HALF
    } else if c > hi {
        hi
    } else {
        c
    }
}

/// The clamped backtraced position of coordinate c moved against velocity
/// component vel for scaled time dt0.
pub open spec fn back_coord(c: int, vel: i64, dt0: i64, n: int) -> i64 {
    clamp_coord(fx_sub(i2fx(c), fx_mul(dt0, vel)), n)
}

/// The advected value of interior cell (i, j): the source field resampled
/// bilinearly at the backtraced position.
pub open spec fn advect_cell(
    d0: Seq<i64>,
    u: Seq<i64>,
    v: Seq<i64>,
    n: int,
    dt0: i64,
    i: int,
    j: int,
) -> i64 {
    let xc = back_coord(i, u[ix(n, i, j)], dt0, n);
    let yc = back_coord(j, v[ix(n, i, j)], dt0, n);
    let i0 = tdiv(xc as int, FX_SCALE as int);
    let j0 = tdiv(yc as int, FX_SCALE as int);
    let s1 = fx_sub(xc, i2fx(i0));
    let s0 = fx_sub(FX_ONE, s1);
    let t1 = fx_sub(yc, i2fx(j0));
    let t0 = fx_sub(FX_ONE, t1);
    fx_add(
        fx_mul(s0, fx_add(fx_mul(t0, d0[ix(n, i0, j0)]), fx_mul(t1, d0[ix(n, i0, j0 + 1)]))),
        fx_mul(
            s1,
            fx_add(fx_mul(t0, d0[ix(n, i0 + 1, j0)]), fx_mul(t1, d0[ix(n, i0 + 1, j0 + 1)])),
        ),
    )
}

/// The whole field with every interior cell advected and every other cell
/// keeping its value from d.
pub open spec fn advect_interior(
    d: Seq<i64>,
    d0: Seq<i64>,
    u: Seq<i64>,
    v: Seq<i64>,
    n: int,
    dt0: i64,
) -> Seq<i64> {
    Seq::new(
        d.len(),
        |t: int|
            if interior(n, t % (n + 2), t / (n + 2)) {
                advect_cell(d0, u, v, n, dt0, t % (n + 2), t / (n + 2))
            } else {
                d[t]
            },
    )
}

/// The advected field after boundary enforcement; the backtrace distance is
/// scaled by dt * n.
pub open spec fn advect_spec(
    k: BoundaryKind,
    d: Seq<i64>,
    d0: Seq<i64>,
    u: Seq<i64>,
    v: Seq<i64>,
    n: int,
    dt: i64,
) -> Seq<i64> {
    enforce_spec(k, n, advect_interior(d, d0, u, v, n, fx_mul(dt, i2fx(n))))
}

/// A clamped coordinate's integer part lies in [0, n], so all four sample
/// cells of the bilinear stencil are on the grid.
pub proof fn lemma_floor_range(c: i64, n: int)
    requires
        1 <= n <= MAX_N as int,
        FX_HALF <= c,
        c <= sat64(n * FX_SCALE as int + FX_HALF as int),
    ensures
        0 <= tdiv(c as int, FX_SCALE as int) <= n,
{
    lemma_fundamental_div_mod(c as int, FX_SCALE as int);
    lemma_mod_bound(c as int, FX_SCALE as int);
    let q = c as int / FX_SCALE as int;
    let r = c as int % FX_SCALE as int;
    assert(0 <= q <= n) by (nonlinear_arith)
        requires
            c as int == FX_SCALE as int * q + r,
            0 <= r < FX_SCALE as int,
            FX_HALF as int <= c as int <= n * FX_SCALE as int + FX_HALF as int,
            1 <= n <= 1000,
    ;
}

/// The fixed-point value of a small coordinate.
pub fn coord_fx(c: usize) -> (r: i64)
    requires
        c <= MAX_N + 1,
    ensures
        r == i2fx(c as int),
{
    (c as i64) * FX_SCALE
}

/// Transport the source field d0 along velocity (u, v) into d, in place:
/// every interior cell of d takes the bilinear resample of d0 at its
/// backtraced position, then the boundary is enforced with kind k.
pub fn advect(k: BoundaryKind, d: &mut Field, d0: &Field, u: &Field, v: &Field, dt: i64)
    requires
        old(d).wf(),
        d0.wf(),
        u.wf(),
        v.wf(),
        old(d).n_int() == d0.n_int(),
        old(d).n_int() == u.n_int(),
        old(d).n_int() == v.n_int(),
    ensures
        final(d).wf(),
        final(d).n_int() == old(d).n_int(),
        final(d)@ == advect_spec(k, old(d)@, d0@, u@, v@, old(d).n_int(), dt),
{
    let n: usize = d.n();
    let ghost n_i = d.n_int();
    let ghost dd0 = d@;
    let dt0: i64 = fmul(dt, coord_fx(n));
    let hi: i64 = (n as i64) * FX_SCALE + FX_HALF;
    let mut i: usize = 1;
    while i <= n
        invariant
            d.wf(),
            d.n_int() == n_i,
            n == n_i,
            d0.wf(),
            u.wf(),
            v.wf(),
            d0.n_int() == n_i,
            u.n_int() == n_i,
            v.n_int() == n_i,
            1 <= i <= n + 1,
            dd0.len() == grid_len(n_i),
            dt0 == fx_mul(dt, i2fx(n_i)),
            hi == sat64(n_i * FX_SCALE as int + FX_HALF as int),
            forall|x: int, y: int| #![trigger ix(n_i, x, y)]
                in_grid(n_i, x, y) ==> d@[ix(n_i, x, y)] == (
                    if interior(n_i, x, y) && x < i {
                        advect_cell(d0@, u@, v@, n_i, dt0, x, y)
                    } else {
                        dd0[ix(n_i, x, y)]
                    }
                ),
        decreases n + 1 - i,
    {
        let mut j: usize = 1;
        while j <= n
            invariant
                d.wf(),
                d.n_int() == n_i,
                n == n_i,
                d0.wf(),
                u.wf(),
                v.wf(),
                d0.n_int() == n_i,
                u.n_int() == n_i,
                v.n_int() == n_i,
                1 <= i <= n,
                1 <= j <= n + 1,
                dd0.len() == grid_len(n_i),
                dt0 == fx_mul(dt, i2fx(n_i)),
                hi == sat64(n_i * FX_SCALE as int + FX_HALF as int),
                forall|x: int, y: int| #![trigger ix(n_i, x, y)]
                    in_grid(n_i, x, y) ==> d@[ix(n_i, x, y)] == (
                        if interior(n_i, x, y) && (x < i || (x == i && y < j)) {
                            advect_cell(d0@, u@, v@, n_i, dt0, x, y)
                        } else {
                            dd0[ix(n_i, x, y)]
                        }
                    ),
            decreases n + 1 - j,
        {
            let uv: i64 = u.get(i, j);
            let vv: i64 = v.get(i, j);
            let xb: i64 = fsub(coord_fx(i), fmul(dt0, uv));
            let xc: i64 = if xb < FX_HALF {
                FX_HALF
            } else if xb > hi {
                hi
            } else {
                xb
            };
            let yb: i64 = fsub(coord_fx(j), fmul(dt0, vv));
            let yc: i64 = if yb < FX_HALF {
                FX_HALF
            } else if yb > hi {
                hi
            } else {
                yb
            };
            proof {
                lemma_floor_range(xc, n_i);
                lemma_floor_range(yc, n_i);
            }
            let i0: usize = (xc / FX_SCALE) as usize;
            let j0: usize = (yc / FX_SCALE) as usize;
            let s1: i64 = fsub(xc, coord_fx(i0));
            let s0: i64 = fsub(FX_ONE, s1);
            let t1: i64 = fsub(yc, coord_fx(j0));
            let t0: i64 = fsub(FX_ONE, t1);
            let bl: i64 = d0.get(i0, j0);
            let tl: i64 = d0.get(i0, j0 + 1);
            let br: i64 = d0.get(i0 + 1, j0);
            let tr: i64 = d0.get(i0 + 1, j0 + 1);
            let val: i64 = fadd(
                fmul(s0, fadd(fmul(t0, bl), fmul(t1, tl))),
                fmul(s1, fadd(fmul(t0, br), fmul(t1, tr))),
            );
            d.set(i, j, val);
            proof {
                assert(val == advect_cell(d0@, u@, v@, n_i, dt0, i as int, j as int));
                assert forall|x: int, y: int| #![trigger ix(n_i, x, y)]
                    in_grid(n_i, x, y) implies d@[ix(n_i, x, y)] == (
                    if interior(n_i, x, y) && (x < i || (x == i && y < j + 1)) {
                        advect_cell(d0@, u@, v@, n_i, dt0, x, y)
                    } else {
                        dd0[ix(n_i, x, y)]
                    }
                ) by {
                    lemma_ix_bounds(n_i, x, y);
                    lemma_ix_bounds(n_i, i as int, j as int);
                    lemma_ix_inj(n_i, x, y, i as int, j as int);
                }
            }
            j = j + 1;
        }
        i = i + 1;
    }
    proof {
        assert forall|t: int| 0 <= t < d@.len() implies d@[t] == advect_interior(
            dd0,
            d0@,
            u@,
            v@,
            n_i,
            dt0,
        )[t] by {
            lemma_decode(n_i, t);
        }
        assert(d@ =~= advect_interior(dd0, d0@, u@, v@, n_i, dt0));
    }
    enforce(k, d);
}

/// Law: advection along an all-zero velocity field leaves every interior
/// cell equal to the corresponding source cell: the backtrace lands exactly
/// on the cell itself, with bilinear weights one and zero.
pub proof fn lemma_advect_identity_on_zero_velocity(
    k: BoundaryKind,
    d: Seq<i64>,
    d0: Seq<i64>,
    u: Seq<i64>,
    v: Seq<i64>,
    n: int,
    dt: i64,
    i: int,
    j: int,
)
    requires
        1 <= n <= MAX_N as int,
        d.len() == grid_len(n),
        d0.len() == grid_len(n),
        u.len() == grid_len(n),
        v.len() == grid_len(n),
        interior(n, i, j),
        forall|t: int| 0 <= t < grid_len(n) ==> u[t] == 0i64 && v[t] == 0i64,
    ensures
        advect_spec(k, d, d0, u, v, n, dt)[ix(n, i, j)] == d0[ix(n, i, j)],
{
    let dt0 = fx_mul(dt, i2fx(n));
    lemma_ix_bounds(n, i, j);
    crate::fixed::lemma_fx_mul_zero(dt0);
    assert(fx_sub(i2fx(i), fx_mul(dt0, u[ix(n, i, j)])) == i2fx(i));
    assert(back_coord(i, u[ix(n, i, j)], dt0, n) == i2fx(i));
    assert(back_coord(j, v[ix(n, i, j)], dt0, n) == i2fx(j));
    vstd::arithmetic::div_mod::lemma_div_multiples_vanish(i, FX_SCALE as int);
    vstd::arithmetic::div_mod::lemma_div_multiples_vanish(j, FX_SCALE as int);
    assert(tdiv(i2fx(i) as int, FX_SCALE as int) == i);
    assert(tdiv(i2fx(j) as int, FX_SCALE as int) == j);
    crate::fixed::lemma_fx_mul_one(d0[ix(n, i, j)]);
    crate::fixed::lemma_fx_mul_zero(d0[ix(n, i, j + 1)]);
    crate::fixed::lemma_fx_mul_zero(d0[ix(n, i + 1, j)]);
    crate::fixed::lemma_fx_mul_zero(d0[ix(n, i + 1, j + 1)]);
    crate::fixed::lemma_fx_mul_zero(
        fx_add(fx_mul(FX_ONE, d0[ix(n, i + 1, j)]), fx_mul(0, d0[ix(n, i + 1, j + 1)])),
    );
    crate::fixed::lemma_fx_mul_one(
        fx_add(fx_mul(FX_ONE, d0[ix(n, i, j)]), fx_mul(0, d0[ix(n, i, j + 1)])),
    );
    assert(advect_cell(d0, u, v, n, dt0, i, j) == d0[ix(n, i, j)]);
    crate::field::lemma_ix_decompose(n, i, j);
    crate::boundary::lemma_enforce_interior(
        k,
        n,
        advect_interior(d, d0, u, v, n, dt0),
        i,
        j,
    );
}

} // verus!
