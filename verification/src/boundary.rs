//! Boundary-condition enforcement on the ghost border of a field.
//!
//! `enforce` rewrites only the border cells: each side ghost cell takes the
//! adjacent interior value, sign-flipped across the left/right border for
//! `MirrorX` and across the top/bottom border for `MirrorY`; each corner then
//! takes the average of its two adjacent, just-written border cells.

use vstd::prelude::*;
use crate::fixed::{fx_add, fx_half, fx_neg, fadd, fhalf, fneg};
use crate::field::{
    grid_len, in_grid, interior, ix, lemma_decode, lemma_ix_bounds, lemma_ix_inj, Field,
};

verus! {

/// Selects the sign behaviour of the ghost border.
#[derive(Clone, Copy, PartialEq, Eq, Structural, Debug)]
pub enum BoundaryKind {
    /// Density-like fields: the interior value is copied straight across.
    Continuity,
    /// X velocity: sign-flipped across the left/right border.
    MirrorX,
    /// Y velocity: sign-flipped across the top/bottom border.
    MirrorY,
}

/// The value an interior cell contributes to a ghost cell: negated when the
/// border mirrors, copied otherwise.
pub open spec fn refl(mirrored: bool, v: i64) -> i64 {
    if mirrored {
        fx_neg(v)
    } else {
        v
    }
}

/// Value of cell (x, y) after boundary enforcement of kind k on contents s.
pub open spec fn bnd_cell(k: BoundaryKind, n: int, s: Seq<i64>, x: int, y: int) -> i64 {
    if interior(n, x, y) {
        s[ix(n, x, y)]
    } else if x == 0 && 1 <= y <= n {
        refl(k == BoundaryKind::MirrorX, s[ix(n, 1, y)])
    } else if x == n + 1 && 1 <= y <= n {
        refl(k == BoundaryKind::MirrorX, s[ix(n, n, y)])
    } else if 1 <= x <= n && y == 0 {
        refl(k == BoundaryKind::MirrorY, s[ix(n, x, 1)])
    } else if 1 <= x <= n && y == n + 1 {
        refl(k == BoundaryKind::MirrorY, s[ix(n, x, n)])
    } else if x == 0 && y == 0 {
        fx_half(fx_add(
            refl(k == BoundaryKind::MirrorY, s[ix(n, 1, 1)]),
            refl(k == BoundaryKind::MirrorX, s[ix(n, 1, 1)]),
        ))
    } else if x == 0 && y == n + 1 {
        fx_half(fx_add(
            refl(k == BoundaryKind::MirrorY, s[ix(n, 1, n)]),
            refl(k == BoundaryKind::MirrorX, s[ix(n, 1, n)]),
        ))
    } else if x == n + 1 && y == 0 {
        fx_half(fx_add(
            refl(k == BoundaryKind::MirrorY, s[ix(n, n, 1)]),
            refl(k == BoundaryKind::MirrorX, s[ix(n, n, 1)]),
        ))
    } else if x == n + 1 && y == n + 1 {
        fx_half(fx_add(
            refl(k == BoundaryKind::MirrorY, s[ix(n, n, n)]),
            refl(k == BoundaryKind::MirrorX, s[ix(n, n, n)]),
        ))
    } else {
        s[ix(n, x, y)]
    }
}

/// The whole field after boundary enforcement.
pub open spec fn enforce_spec(k: BoundaryKind, n: int, s: Seq<i64>) -> Seq<i64> {
    Seq::new(s.len(), |t: int| bnd_cell(k, n, s, t % (n + 2), t / (n + 2)))
}

/// Reading the enforced field at grid coordinates yields `bnd_cell`.
pub proof fn lemma_enforce_at(k: BoundaryKind, n: int, s: Seq<i64>, x: int, y: int)
    requires
        1 <= n,
        s.len() == grid_len(n),
        in_grid(n, x, y),
    ensures
        enforce_spec(k, n, s)[ix(n, x, y)] == bnd_cell(k, n, s, x, y),
{
    lemma_ix_bounds(n, x, y);
    crate::field::lemma_ix_decompose(n, x, y);
}

/// Enforcement never touches interior cells.
pub proof fn lemma_enforce_interior(k: BoundaryKind, n: int, s: Seq<i64>, x: int, y: int)
    requires
        1 <= n,
        s.len() == grid_len(n),
        interior(n, x, y),
    ensures
        enforce_spec(k, n, s)[ix(n, x, y)] == s[ix(n, x, y)],
{
    lemma_enforce_at(k, n, s, x, y);
}

/// Law: after enforcement, each ghost side cell mirrors the adjacent interior
/// cell of the enforced field: sign-flipped across left/right for `MirrorX`
/// and across top/bottom for `MirrorY`, copied in every other combination.
pub proof fn lemma_boundary_symmetry(k: BoundaryKind, n: int, s: Seq<i64>, i: int)
    requires
        1 <= n,
        s.len() == grid_len(n),
        1 <= i <= n,
    ensures
        enforce_spec(k, n, s)[ix(n, 0, i)] == refl(
            k == BoundaryKind::MirrorX,
            enforce_spec(k, n, s)[ix(n, 1, i)],
        ),
        enforce_spec(k, n, s)[ix(n, n + 1, i)] == refl(
            k == BoundaryKind::MirrorX,
            enforce_spec(k, n, s)[ix(n, n, i)],
        ),
        enforce_spec(k, n, s)[ix(n, i, 0)] == refl(
            k == BoundaryKind::MirrorY,
            enforce_spec(k, n, s)[ix(n, i, 1)],
        ),
        enforce_spec(k, n, s)[ix(n, i, n + 1)] == refl(
            k == BoundaryKind::MirrorY,
            enforce_spec(k, n, s)[ix(n, i, n)],
        ),
{
    lemma_enforce_at(k, n, s, 0, i);
    lemma_enforce_at(k, n, s, 1, i);
    lemma_enforce_at(k, n, s, n + 1, i);
    lemma_enforce_at(k, n, s, n, i);
    lemma_enforce_at(k, n, s, i, 0);
    lemma_enforce_at(k, n, s, i, 1);
    lemma_enforce_at(k, n, s, i, n + 1);
    lemma_enforce_at(k, n, s, i, n);
}

/// Law: after enforcement, each corner equals the exact average of its two
/// adjacent border cells of the enforced field.
pub proof fn lemma_corner_averaging(k: BoundaryKind, n: int, s: Seq<i64>)
    requires
        1 <= n,
        s.len() == grid_len(n),
    ensures
        enforce_spec(k, n, s)[ix(n, 0, 0)] == fx_half(fx_add(
            enforce_spec(k, n, s)[ix(n, 1, 0)],
            enforce_spec(k, n, s)[ix(n, 0, 1)],
        )),
        enforce_spec(k, n, s)[ix(n, 0, n + 1)] == fx_half(fx_add(
            enforce_spec(k, n, s)[ix(n, 1, n + 1)],
            enforce_spec(k, n, s)[ix(n, 0, n)],
        )),
        enforce_spec(k, n, s)[ix(n, n + 1, 0)] == fx_half(fx_add(
            enforce_spec(k, n, s)[ix(n, n, 0)],
            enforce_spec(k, n, s)[ix(n, n + 1, 1)],
        )),
        enforce_spec(k, n, s)[ix(n, n + 1, n + 1)] == fx_half(fx_add(
            enforce_spec(k, n, s)[ix(n, n, n + 1)],
            enforce_spec(k, n, s)[ix(n, n + 1, n)],
        )),
{
    lemma_enforce_at(k, n, s, 0, 0);
    lemma_enforce_at(k, n, s, 1, 0);
    lemma_enforce_at(k, n, s, 0, 1);
    lemma_enforce_at(k, n, s, 0, n + 1);
    lemma_enforce_at(k, n, s, 1, n + 1);
    lemma_enforce_at(k, n, s, 0, n);
    lemma_enforce_at(k, n, s, n + 1, 0);
    lemma_enforce_at(k, n, s, n, 0);
    lemma_enforce_at(k, n, s, n + 1, 1);
    lemma_enforce_at(k, n, s, n + 1, n + 1);
    lemma_enforce_at(k, n, s, n, n + 1);
    lemma_enforce_at(k, n, s, n + 1, n);
}

/// Apply the border sign rule.
fn reflect(mirrored: bool, v: i64) -> (r: i64)
    ensures
        r == refl(mirrored, v),
{
    if mirrored {
        fneg(v)
    } else {
        v
    }
}

/// Rewrite the ghost border of f in place: sides from the adjacent interior
/// cells under the sign rule of k, then corners as averages of their two
/// adjacent border cells. Interior cells are untouched.
pub fn enforce(k: BoundaryKind, f: &mut Field)
    requires
        old(f).wf(),
    ensures
        final(f).wf(),
        final(f).n_int() == old(f).n_int(),
        final(f)@ == enforce_spec(k, old(f).n_int(), old(f)@),
{
    let n = f.n();
    let ghost n_i = f.n_int();
    let ghost s0 = f@;
    let mir_x = k == BoundaryKind::MirrorX;
    let mir_y = k == BoundaryKind::MirrorY;
    let mut i: usize = 1;
    while i <= n
        invariant
            f.wf(),
            f.n_int() == n_i,
            n == n_i,
            1 <= i <= n + 1,
            s0.len() == grid_len(n_i),
            f@.len() == s0.len(),
            mir_x == (k == BoundaryKind::MirrorX),
            mir_y == (k == BoundaryKind::MirrorY),
            forall|x: int, y: int| #![trigger ix(n_i, x, y)]
                in_grid(n_i, x, y) ==> f@[ix(n_i, x, y)] == (
                    if 1 <= y < i && (x == 0 || x == n_i + 1) {
                        bnd_cell(k, n_i, s0, x, y)
                    } else if 1 <= x < i && (y == 0 || y == n_i + 1) {
                        bnd_cell(k, n_i, s0, x, y)
                    } else {
                        s0[ix(n_i, x, y)]
                    }
                ),
        decreases n + 1 - i,
    {
        let lv = f.get(1, i);
        let rv = f.get(n, i);
        let bv = f.get(i, 1);
        let tv = f.get(i, n);
        f.set(0, i, reflect(mir_x, lv));
        f.set(n + 1, i, reflect(mir_x, rv));
        f.set(i, 0, reflect(mir_y, bv));
        f.set(i, n + 1, reflect(mir_y, tv));
        proof {
            assert forall|x: int, y: int| in_grid(n_i, x, y) implies f@[ix(n_i, x, y)] == (
                if 1 <= y < i + 1 && (x == 0 || x == n_i + 1) {
                    bnd_cell(k, n_i, s0, x, y)
                } else if 1 <= x < i + 1 && (y == 0 || y == n_i + 1) {
                    bnd_cell(k, n_i, s0, x, y)
                } else {
                    s0[ix(n_i, x, y)]
                }
            ) by {
                lemma_ix_bounds(n_i, x, y);
                lemma_ix_bounds(n_i, 0, i as int);
                lemma_ix_bounds(n_i, n_i + 1, i as int);
                lemma_ix_bounds(n_i, i as int, 0);
                lemma_ix_bounds(n_i, i as int, n_i + 1);
                lemma_ix_inj(n_i, x, y, 0, i as int);
                lemma_ix_inj(n_i, x, y, n_i + 1, i as int);
                lemma_ix_inj(n_i, x, y, i as int, 0);
                lemma_ix_inj(n_i, x, y, i as int, n_i + 1);
            }
        }
        i = i + 1;
    }
    let c00 = fhalf(fadd(f.get(1, 0), f.get(0, 1)));
    let c0n = fhalf(fadd(f.get(1, n + 1), f.get(0, n)));
    let cn0 = fhalf(fadd(f.get(n, 0), f.get(n + 1, 1)));
    let cnn = fhalf(fadd(f.get(n, n + 1), f.get(n + 1, n)));
    f.set(0, 0, c00);
    f.set(0, n + 1, c0n);
    f.set(n + 1, 0, cn0);
    f.set(n + 1, n + 1, cnn);
    proof {
        assert forall|t: int| 0 <= t < f@.len() implies f@[t] == bnd_cell(
            k,
            n_i,
            s0,
            t % (n_i + 2),
            t / (n_i + 2),
        ) by {
            lemma_decode(n_i, t);
            let x = t % (n_i + 2);
            let y = t / (n_i + 2);
            lemma_ix_bounds(n_i, x, y);
            lemma_ix_bounds(n_i, 0, 0);
            lemma_ix_bounds(n_i, 0, n_i + 1);
            lemma_ix_bounds(n_i, n_i + 1, 0);
            lemma_ix_bounds(n_i, n_i + 1, n_i + 1);
            lemma_ix_inj(n_i, x, y, 0, 0);
            lemma_ix_inj(n_i, x, y, 0, n_i + 1);
            lemma_ix_inj(n_i, x, y, n_i + 1, 0);
            lemma_ix_inj(n_i, x, y, n_i + 1, n_i + 1);
        }
        assert(f@ =~= enforce_spec(k, n_i, s0));
    }
}

} // verus!
